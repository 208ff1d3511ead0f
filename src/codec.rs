//! The fixed binary layout of instruction arguments: little-endian integers,
//! one-byte booleans, `u32`-length-prefixed strings, byte strings and lists,
//! one-byte presence tags for optional values, and records as their fields in
//! order, with no padding and no schema metadata.

use vstd::prelude::*;
use vstd::slice::{slice_subrange, slice_to_vec};
use vstd::utf8::*;

verus! {

/// `256^n`.
pub open spec fn pow256(n: nat) -> nat
    decreases n,
{
    if n == 0 {
        1
    } else {
        256 * pow256((n - 1) as nat)
    }
}

/// The `n` low-order bytes of `v`, least significant first.
pub open spec fn le_bytes(v: nat, n: nat) -> Seq<u8>
    decreases n,
{
    if n == 0 {
        Seq::empty()
    } else {
        seq![(v % 256) as u8] + le_bytes(v / 256, (n - 1) as nat)
    }
}

/// The number whose little-endian bytes are `s`.
pub open spec fn le_value(s: Seq<u8>) -> nat
    decreases s.len(),
{
    if s.len() == 0 {
        0
    } else {
        s[0] as nat + 256 * le_value(s.drop_first())
    }
}

/// `le_bytes(v, n)` has `n` bytes.
pub proof fn lemma_le_bytes_len(v: nat, n: nat)
    ensures
        le_bytes(v, n).len() == n,
    decreases n,
{
    if n > 0 {
        lemma_le_bytes_len(v / 256, (n - 1) as nat);
    }
}

/// A number read from `k` bytes is below `256^k`.
pub proof fn lemma_le_value_bound(s: Seq<u8>)
    ensures
        le_value(s) < pow256(s.len()),
    decreases s.len(),
{
    if s.len() > 0 {
        lemma_le_value_bound(s.drop_first());
        let a = s[0] as nat;
        let r = le_value(s.drop_first());
        let p = pow256(s.drop_first().len());
        assert(a + 256 * r < 256 * p) by (nonlinear_arith)
            requires
                a < 256,
                r < p,
        ;
    }
}

/// Reading back `n` little-endian bytes of `v` gives `v`, when `v` fits.
pub proof fn lemma_le_round_trip(v: nat, n: nat)
    requires
        v < pow256(n),
    ensures
        le_bytes(v, n).len() == n,
        le_value(le_bytes(v, n)) == v,
    decreases n,
{
    lemma_le_bytes_len(v, n);
    if n > 0 {
        let m = (n - 1) as nat;
        assert(v / 256 < pow256(m)) by (nonlinear_arith)
            requires
                v < 256 * pow256(m),
        ;
        lemma_le_round_trip(v / 256, m);
        let s = le_bytes(v, n);
        assert(s.drop_first() =~= le_bytes(v / 256, m));
        assert(v == v % 256 + 256 * (v / 256)) by (nonlinear_arith);
    }
}

/// Appends the `n` low-order bytes of `v` to `out`, least significant first.
fn put_le(out: &mut Vec<u8>, v: u128, n: usize)
    ensures
        final(out)@ == old(out)@ + le_bytes(v as nat, n as nat),
{
    let mut x: u128 = v;
    let mut i: usize = 0;
    while i < n
        invariant
            i <= n,
            old(out)@ + le_bytes(v as nat, n as nat) == out@ + le_bytes(x as nat, (n - i) as nat),
        decreases n - i,
    {
        let ghost before = out@;
        out.push((x % 256) as u8);
        assert(le_bytes(x as nat, (n - i) as nat) == seq![(x % 256) as u8] + le_bytes(
            (x / 256) as nat,
            (n - i - 1) as nat,
        ));
        assert(before + le_bytes(x as nat, (n - i) as nat) =~= out@ + le_bytes(
            (x / 256) as nat,
            (n - i - 1) as nat,
        ));
        x = x / 256;
        i = i + 1;
    }
    assert(le_bytes(x as nat, 0) =~= Seq::<u8>::empty());
    assert(out@ + le_bytes(x as nat, 0) =~= out@);
}

/// Reads `n` little-endian bytes of `bytes` from `pos` on.
fn get_le(bytes: &[u8], pos: usize, n: usize) -> (r: u128)
    requires
        n <= 16,
        pos + n <= bytes@.len(),
    ensures
        r as nat == le_value(bytes@.subrange(pos as int, pos + n)),
{
    let len = bytes.len();
    let mut acc: u128 = 0;
    let mut j: usize = n;
    proof {
        reveal_with_fuel(pow256, 16);
        assert(bytes@.subrange(pos + n, pos + n) =~= Seq::<u8>::empty());
    }
    while j > 0
        invariant
            j <= n <= 16,
            len == bytes@.len(),
            pos + n <= len,
            acc as nat == le_value(bytes@.subrange(pos + j, pos + n)),
            pow256(15) == 0x1000000000000000000000000000000,
        decreases j,
    {
        let ghost tail = bytes@.subrange(pos + j, pos + n);
        let ghost s = bytes@.subrange(pos + j - 1, pos + n);
        proof {
            lemma_le_value_bound(tail);
            lemma_pow256_mono((n - j) as nat, 15);
            assert(s.drop_first() =~= tail);
        }
        let b = bytes[pos + (j - 1)];
        acc = b as u128 + 256 * acc;
        j = j - 1;
    }
    acc
}

/// The two's complement of `x` in `n` bytes, as an unsigned number.
pub open spec fn twos(x: int, n: nat) -> nat {
    if x < 0 {
        (x + pow256(n)) as nat
    } else {
        x as nat
    }
}

/// The signed number whose `n`-byte two's complement is `v`.
pub open spec fn signed(v: nat, n: nat) -> int {
    if 2 * v >= pow256(n) {
        v - pow256(n)
    } else {
        v as int
    }
}

/// A number that fits `n` signed bytes comes back from its two's complement.
pub proof fn lemma_signed_round_trip(x: int, n: nat)
    requires
        -pow256(n) <= 2 * x < pow256(n),
    ensures
        twos(x, n) < pow256(n),
        signed(twos(x, n), n) == x,
{
}

/// `2^(8n)` for the widths that values have.
fn modulus(n: usize) -> (r: u128)
    requires
        n == 1 || n == 2 || n == 4 || n == 8,
    ensures
        r as nat == pow256(n as nat),
{
    proof {
        reveal_with_fuel(pow256, 9);
    }
    if n == 1 {
        0x100
    } else if n == 2 {
        0x1_0000
    } else if n == 4 {
        0x1_0000_0000
    } else {
        0x1_0000_0000_0000_0000
    }
}

/// Appends the `n`-byte two's complement of `v` to `out`, least significant first.
fn put_signed(out: &mut Vec<u8>, v: i128, n: usize)
    requires
        n == 1 || n == 2 || n == 4 || n == 8 || n == 16,
        -pow256(n as nat) <= 2 * v < pow256(n as nat),
    ensures
        final(out)@ == old(out)@ + le_bytes(twos(v as int, n as nat), n as nat),
{
    proof {
        reveal_with_fuel(pow256, 17);
    }
    let u: u128 = if v >= 0 {
        v as u128
    } else if n == 16 {
        ((v + i128::MAX + 1) as u128) + 0x8000_0000_0000_0000_0000_0000_0000_0000
    } else {
        (v + modulus(n) as i128) as u128
    };
    put_le(out, u, n);
}

/// Reads the `n`-byte two's complement at `pos` in `bytes`.
fn get_signed(bytes: &[u8], pos: usize, n: usize) -> (r: i128)
    requires
        n == 1 || n == 2 || n == 4 || n == 8 || n == 16,
        pos + n <= bytes@.len(),
    ensures
        r as int == signed(le_value(bytes@.subrange(pos as int, pos + n)), n as nat),
        -pow256(n as nat) <= 2 * r < pow256(n as nat),
{
    let u = get_le(bytes, pos, n);
    proof {
        reveal_with_fuel(pow256, 17);
        lemma_le_value_bound(bytes@.subrange(pos as int, pos + n));
    }
    if n == 16 {
        if u >= 0x8000_0000_0000_0000_0000_0000_0000_0000 {
            ((u - 0x8000_0000_0000_0000_0000_0000_0000_0000) as i128) + i128::MIN
        } else {
            u as i128
        }
    } else {
        let p = modulus(n);
        if 2 * u >= p {
            (u as i128) - (p as i128)
        } else {
            u as i128
        }
    }
}

/// `256^a <= 256^b` when `a <= b`.
pub proof fn lemma_pow256_mono(a: nat, b: nat)
    requires
        a <= b,
    ensures
        pow256(a) <= pow256(b),
    decreases b,
{
    if a < b {
        lemma_pow256_mono(a, (b - 1) as nat);
    }
}


/// The largest length that a `u32` prefix can carry.
pub const MAX_LEN: usize = 0xffff_ffff;

/// A typed argument of an instruction.
pub enum Value {
    Bool(bool),
    U8(u8),
    U16(u16),
    U32(u32),
    U64(u64),
    U128(u128),
    I8(i8),
    I16(i16),
    I32(i32),
    I64(i64),
    I128(i128),
    /// UTF-8 text, prefixed by its byte length.
    Text(String),
    /// Raw bytes, prefixed by their length.
    Bytes(Vec<u8>),
    /// A presence tag, then the value if there is one.
    Opt(Option<Box<Value>>),
    /// Values of one shape, prefixed by their count.
    List(Vec<Value>),
    /// Fields in declared order, with nothing around them.
    Record(Vec<Value>),
}

/// What a `Value` stands for.
pub enum ValueModel {
    Bool(bool),
    U8(u8),
    U16(u16),
    U32(u32),
    U64(u64),
    U128(u128),
    I8(i8),
    I16(i16),
    I32(i32),
    I64(i64),
    I128(i128),
    Text(Seq<char>),
    Bytes(Seq<u8>),
    Opt(Option<Box<ValueModel>>),
    List(Seq<ValueModel>),
    Record(Seq<ValueModel>),
}

/// The type of a value, which the layout does not carry: a reader must know it.
pub enum Shape {
    Bool,
    U8,
    U16,
    U32,
    U64,
    U128,
    I8,
    I16,
    I32,
    I64,
    I128,
    Text,
    Bytes,
    Opt(Box<Shape>),
    List(Box<Shape>),
    Record(Vec<Shape>),
}

pub open spec fn model(v: Value) -> ValueModel
    decreases v,
{
    match v {
        Value::Bool(b) => ValueModel::Bool(b),
        Value::U8(x) => ValueModel::U8(x),
        Value::U16(x) => ValueModel::U16(x),
        Value::U32(x) => ValueModel::U32(x),
        Value::U64(x) => ValueModel::U64(x),
        Value::U128(x) => ValueModel::U128(x),
        Value::I8(x) => ValueModel::I8(x),
        Value::I16(x) => ValueModel::I16(x),
        Value::I32(x) => ValueModel::I32(x),
        Value::I64(x) => ValueModel::I64(x),
        Value::I128(x) => ValueModel::I128(x),
        Value::Text(t) => ValueModel::Text(t@),
        Value::Bytes(b) => ValueModel::Bytes(b@),
        Value::Opt(o) => match o {
            None => ValueModel::Opt(None),
            Some(b) => ValueModel::Opt(Some(Box::new(model(*b)))),
        },
        Value::List(vs) => ValueModel::List(models(vs@)),
        Value::Record(vs) => ValueModel::Record(models(vs@)),
    }
}

pub open spec fn models(vs: Seq<Value>) -> Seq<ValueModel>
    decreases vs,
{
    if vs.len() == 0 {
        Seq::empty()
    } else {
        seq![model(vs[0])] + models(vs.subrange(1, vs.len() as int))
    }
}

/// The models of a list of values, one for each, in order.
pub proof fn lemma_models(vs: Seq<Value>)
    ensures
        models(vs).len() == vs.len(),
        forall|i: int| 0 <= i < vs.len() ==> #[trigger] models(vs)[i] == model(vs[i]),
    decreases vs.len(),
{
    if vs.len() > 0 {
        let rest = vs.subrange(1, vs.len() as int);
        lemma_models(rest);
        assert forall|i: int| 0 <= i < vs.len() implies #[trigger] models(vs)[i] == model(vs[i]) by {
            if i > 0 {
                assert(rest[i - 1] == vs[i]);
            }
        }
    }
}

impl View for Value {
    type V = ValueModel;

    open spec fn view(&self) -> ValueModel {
        model(*self)
    }
}

/// Values whose lengths fit the `u32` prefixes.
pub open spec fn fits(m: ValueModel) -> bool
    decreases m,
{
    match m {
        ValueModel::Text(t) => encode_utf8(t).len() <= MAX_LEN,
        ValueModel::Bytes(b) => b.len() <= MAX_LEN,
        ValueModel::Opt(o) => match o {
            None => true,
            Some(b) => fits(*b),
        },
        ValueModel::List(ms) => ms.len() <= MAX_LEN && fits_all(ms),
        ValueModel::Record(ms) => fits_all(ms),
        _ => true,
    }
}

pub open spec fn fits_all(ms: Seq<ValueModel>) -> bool
    decreases ms,
{
    ms.len() == 0 || (fits(ms[0]) && fits_all(ms.subrange(1, ms.len() as int)))
}

/// The layout of one value.
pub open spec fn encode(m: ValueModel) -> Seq<u8>
    decreases m,
{
    match m {
        ValueModel::Bool(b) => seq![if b { 1u8 } else { 0u8 }],
        ValueModel::U8(x) => le_bytes(x as nat, 1),
        ValueModel::U16(x) => le_bytes(x as nat, 2),
        ValueModel::U32(x) => le_bytes(x as nat, 4),
        ValueModel::U64(x) => le_bytes(x as nat, 8),
        ValueModel::U128(x) => le_bytes(x as nat, 16),
        ValueModel::I8(x) => le_bytes(twos(x as int, 1), 1),
        ValueModel::I16(x) => le_bytes(twos(x as int, 2), 2),
        ValueModel::I32(x) => le_bytes(twos(x as int, 4), 4),
        ValueModel::I64(x) => le_bytes(twos(x as int, 8), 8),
        ValueModel::I128(x) => le_bytes(twos(x as int, 16), 16),
        ValueModel::Text(t) => le_bytes(encode_utf8(t).len(), 4) + encode_utf8(t),
        ValueModel::Bytes(b) => le_bytes(b.len(), 4) + b,
        ValueModel::Opt(o) => match o {
            None => seq![0u8],
            Some(b) => seq![1u8] + encode(*b),
        },
        ValueModel::List(ms) => le_bytes(ms.len(), 4) + encode_all(ms),
        ValueModel::Record(ms) => encode_all(ms),
    }
}

/// The layouts of several values, one after the other.
pub open spec fn encode_all(ms: Seq<ValueModel>) -> Seq<u8>
    decreases ms,
{
    if ms.len() == 0 {
        Seq::empty()
    } else {
        encode(ms[0]) + encode_all(ms.subrange(1, ms.len() as int))
    }
}

/// A model value of the given shape.
pub open spec fn conforms(m: ValueModel, sh: Shape) -> bool
    decreases sh, 0nat,
{
    match sh {
        Shape::Bool => m is Bool,
        Shape::U8 => m is U8,
        Shape::U16 => m is U16,
        Shape::U32 => m is U32,
        Shape::U64 => m is U64,
        Shape::U128 => m is U128,
        Shape::I8 => m is I8,
        Shape::I16 => m is I16,
        Shape::I32 => m is I32,
        Shape::I64 => m is I64,
        Shape::I128 => m is I128,
        Shape::Text => m is Text,
        Shape::Bytes => m is Bytes,
        Shape::Opt(inner) => match m {
            ValueModel::Opt(o) => match o {
                None => true,
                Some(b) => conforms(*b, *inner),
            },
            _ => false,
        },
        Shape::List(inner) => match m {
            ValueModel::List(ms) => conforms_each(ms, *inner),
            _ => false,
        },
        Shape::Record(shs) => match m {
            ValueModel::Record(ms) => conforms_fields(ms, shs@),
            _ => false,
        },
    }
}

pub open spec fn conforms_each(ms: Seq<ValueModel>, sh: Shape) -> bool
    decreases sh, ms.len(),
{
    ms.len() == 0 || (conforms(ms[0], sh) && conforms_each(ms.subrange(1, ms.len() as int), sh))
}

pub open spec fn conforms_fields(ms: Seq<ValueModel>, shs: Seq<Shape>) -> bool
    decreases shs, 0nat,
{
    if shs.len() == 0 {
        ms.len() == 0
    } else {
        ms.len() > 0 && conforms(ms[0], shs[0]) && conforms_fields(
            ms.subrange(1, ms.len() as int),
            shs.subrange(1, shs.len() as int),
        )
    }
}


/// Appends the bytes of `src` to `out`.
pub(crate) fn put_all(out: &mut Vec<u8>, src: &[u8])
    ensures
        final(out)@ == old(out)@ + src@,
{
    let mut i: usize = 0;
    while i < src.len()
        invariant
            i <= src@.len(),
            out@ == old(out)@ + src@.subrange(0, i as int),
        decreases src@.len() - i,
    {
        out.push(src[i]);
        proof {
            assert(src@.subrange(0, i + 1) =~= src@.subrange(0, i as int).push(src@[i as int]));
        }
        i = i + 1;
    }
    proof {
        assert(src@.subrange(0, src@.len() as int) =~= src@);
    }
}

/// Appends the layout of `v` to `out`.
pub fn encode_into(v: &Value, out: &mut Vec<u8>)
    requires
        fits(v@),
    ensures
        final(out)@ == old(out)@ + encode(v@),
    decreases v,
{
    match v {
        Value::Bool(b) => {
            let ghost before = out@;
            out.push(if *b { 1u8 } else { 0u8 });
            assert(out@ =~= before + encode(v@));
        },
        Value::U8(x) => {
            put_le(out, *x as u128, 1);
        },
        Value::U16(x) => {
            put_le(out, *x as u128, 2);
        },
        Value::U32(x) => {
            put_le(out, *x as u128, 4);
        },
        Value::U64(x) => {
            put_le(out, *x as u128, 8);
        },
        Value::U128(x) => {
            put_le(out, *x, 16);
        },
        Value::I8(x) => {
            proof {
                reveal_with_fuel(pow256, 17);
            }
            put_signed(out, *x as i128, 1);
        },
        Value::I16(x) => {
            proof {
                reveal_with_fuel(pow256, 17);
            }
            put_signed(out, *x as i128, 2);
        },
        Value::I32(x) => {
            proof {
                reveal_with_fuel(pow256, 17);
            }
            put_signed(out, *x as i128, 4);
        },
        Value::I64(x) => {
            proof {
                reveal_with_fuel(pow256, 17);
            }
            put_signed(out, *x as i128, 8);
        },
        Value::I128(x) => {
            proof {
                reveal_with_fuel(pow256, 17);
            }
            put_signed(out, *x, 16);
        },
        Value::Text(t) => {
            let ghost before = out@;
            let bs = t.as_str().as_bytes();
            put_le(out, bs.len() as u128, 4);
            put_all(out, bs);
            assert(out@ =~= before + encode(v@));
        },
        Value::Bytes(b) => {
            let ghost before = out@;
            put_le(out, b.len() as u128, 4);
            put_all(out, b.as_slice());
            assert(out@ =~= before + encode(v@));
        },
        Value::Opt(o) => match o {
            None => {
                let ghost before = out@;
                out.push(0u8);
                assert(out@ =~= before + encode(v@));
            },
            Some(b) => {
                let ghost before = out@;
                out.push(1u8);
                encode_into(b, out);
                assert(out@ =~= before + (seq![1u8] + encode(b@)));
            },
        },
        Value::List(vs) => {
            let ghost before = out@;
            put_le(out, vs.len() as u128, 4);
            encode_each(vs, out);
            proof {
                lemma_models(vs@);
            }
            assert(out@ =~= before + (le_bytes(vs@.len(), 4) + encode_all(models(vs@))));
        },
        Value::Record(vs) => {
            encode_each(vs, out);
        },
    }
}

/// Appends the layouts of `vs` to `out`, one after the other.
pub fn encode_each(vs: &Vec<Value>, out: &mut Vec<u8>)
    requires
        fits_all(models(vs@)),
    ensures
        final(out)@ == old(out)@ + encode_all(models(vs@)),
    decreases vs,
{
    let mut i: usize = 0;
    proof {
        assert(vs@.subrange(0, vs@.len() as int) =~= vs@);
    }
    while i < vs.len()
        invariant
            i <= vs@.len(),
            old(out)@ + encode_all(models(vs@)) == out@ + encode_all(
                models(vs@.subrange(i as int, vs@.len() as int)),
            ),
            fits_all(models(vs@.subrange(i as int, vs@.len() as int))),
        decreases vs@.len() - i,
    {
        let ghost rest = vs@.subrange(i as int, vs@.len() as int);
        let ghost next = vs@.subrange(i + 1, vs@.len() as int);
        let ghost before = out@;
        proof {
            assert(rest.subrange(1, rest.len() as int) =~= next);
            let ms = models(rest);
            assert(ms.subrange(1, ms.len() as int) =~= models(next));
            assert(decreases_to!(vs => vs[i as int]));
        }
        encode_into(&vs[i], out);
        proof {
            assert(before + encode_all(models(rest)) =~= out@ + encode_all(models(next)));
        }
        i = i + 1;
    }
    proof {
        assert(vs@.subrange(i as int, vs@.len() as int) =~= Seq::<Value>::empty());
        assert(models(Seq::<Value>::empty()) =~= Seq::<ValueModel>::empty());
        assert(out@ + encode_all(Seq::<ValueModel>::empty()) =~= out@);
    }
}


/// Reads one value of shape `sh` from the front of `s`: the value and the
/// number of bytes it took, or `None` where `s` does not start with one.
pub open spec fn decode(sh: Shape, s: Seq<u8>) -> Option<(ValueModel, nat)>
    decreases sh, 0nat,
{
    match sh {
        Shape::Bool => if s.len() >= 1 && s[0] <= 1 {
            Some((ValueModel::Bool(s[0] == 1), 1nat))
        } else {
            None
        },
        Shape::U8 => if s.len() >= 1 {
            Some((ValueModel::U8(s[0]), 1nat))
        } else {
            None
        },
        Shape::U16 => if s.len() >= 2 {
            Some((ValueModel::U16(le_value(s.take(2)) as u16), 2nat))
        } else {
            None
        },
        Shape::U32 => if s.len() >= 4 {
            Some((ValueModel::U32(le_value(s.take(4)) as u32), 4nat))
        } else {
            None
        },
        Shape::U64 => if s.len() >= 8 {
            Some((ValueModel::U64(le_value(s.take(8)) as u64), 8nat))
        } else {
            None
        },
        Shape::U128 => if s.len() >= 16 {
            Some((ValueModel::U128(le_value(s.take(16)) as u128), 16nat))
        } else {
            None
        },
        Shape::I8 => if s.len() >= 1 {
            Some((ValueModel::I8(signed(le_value(s.take(1)), 1) as i8), 1nat))
        } else {
            None
        },
        Shape::I16 => if s.len() >= 2 {
            Some((ValueModel::I16(signed(le_value(s.take(2)), 2) as i16), 2nat))
        } else {
            None
        },
        Shape::I32 => if s.len() >= 4 {
            Some((ValueModel::I32(signed(le_value(s.take(4)), 4) as i32), 4nat))
        } else {
            None
        },
        Shape::I64 => if s.len() >= 8 {
            Some((ValueModel::I64(signed(le_value(s.take(8)), 8) as i64), 8nat))
        } else {
            None
        },
        Shape::I128 => if s.len() >= 16 {
            Some((ValueModel::I128(signed(le_value(s.take(16)), 16) as i128), 16nat))
        } else {
            None
        },
        Shape::Text => if s.len() >= 4 && s.len() >= 4 + le_value(s.take(4)) && valid_utf8(
            s.subrange(4, 4 + le_value(s.take(4)) as int),
        ) {
            Some(
                (
                    ValueModel::Text(decode_utf8(s.subrange(4, 4 + le_value(s.take(4)) as int))),
                    4 + le_value(s.take(4)),
                ),
            )
        } else {
            None
        },
        Shape::Bytes => if s.len() >= 4 && s.len() >= 4 + le_value(s.take(4)) {
            Some(
                (
                    ValueModel::Bytes(s.subrange(4, 4 + le_value(s.take(4)) as int)),
                    4 + le_value(s.take(4)),
                ),
            )
        } else {
            None
        },
        Shape::Opt(inner) => if s.len() >= 1 && s[0] == 0 {
            Some((ValueModel::Opt(None), 1nat))
        } else if s.len() >= 1 && s[0] == 1 {
            match decode(*inner, s.subrange(1, s.len() as int)) {
                Some((m, k)) => Some((ValueModel::Opt(Some(Box::new(m))), 1 + k)),
                None => None,
            }
        } else {
            None
        },
        Shape::List(inner) => if s.len() >= 4 {
            match decode_many(*inner, le_value(s.take(4)), s.subrange(4, s.len() as int)) {
                Some((ms, k)) => Some((ValueModel::List(ms), 4 + k)),
                None => None,
            }
        } else {
            None
        },
        Shape::Record(shs) => match decode_fields(shs@, s) {
            Some((ms, k)) => Some((ValueModel::Record(ms), k)),
            None => None,
        },
    }
}

/// Reads `n` values of shape `sh`, one after the other.
pub open spec fn decode_many(sh: Shape, n: nat, s: Seq<u8>) -> Option<(Seq<ValueModel>, nat)>
    decreases sh, n,
{
    if n == 0 {
        Some((Seq::empty(), 0nat))
    } else {
        match decode(sh, s) {
            None => None,
            Some((m, k)) => match decode_many(sh, (n - 1) as nat, s.subrange(k as int, s.len() as int)) {
                None => None,
                Some((ms, k2)) => Some((seq![m] + ms, k + k2)),
            },
        }
    }
}

/// Reads one value of each shape of `shs`, in order.
pub open spec fn decode_fields(shs: Seq<Shape>, s: Seq<u8>) -> Option<(Seq<ValueModel>, nat)>
    decreases shs, 0nat,
{
    if shs.len() == 0 {
        Some((Seq::empty(), 0nat))
    } else {
        match decode(shs[0], s) {
            None => None,
            Some((m, k)) => match decode_fields(
                shs.subrange(1, shs.len() as int),
                s.subrange(k as int, s.len() as int),
            ) {
                None => None,
                Some((ms, k2)) => Some((seq![m] + ms, k + k2)),
            },
        }
    }
}

/// One value decodes from its own layout, whatever follows it.
proof fn lemma_decode_encode(m: ValueModel, sh: Shape, rest: Seq<u8>)
    requires
        fits(m),
        conforms(m, sh),
    ensures
        decode(sh, encode(m) + rest) == Some((m, encode(m).len())),
    decreases sh, 0nat,
{
    let s = encode(m) + rest;
    match sh {
        Shape::Bool => {
            assert(s[0] == encode(m)[0]);
        },
        Shape::U8 => {
            let x = m->U8_0;
            reveal_with_fuel(le_bytes, 2);
            assert(encode(m) =~= seq![x]);
        },
        Shape::U16 => {
            let x = m->U16_0;
            reveal_with_fuel(pow256, 3);
            lemma_le_round_trip(x as nat, 2);
            assert(s.take(2) =~= le_bytes(x as nat, 2));
        },
        Shape::U32 => {
            let x = m->U32_0;
            reveal_with_fuel(pow256, 5);
            lemma_le_round_trip(x as nat, 4);
            assert(s.take(4) =~= le_bytes(x as nat, 4));
        },
        Shape::U64 => {
            let x = m->U64_0;
            reveal_with_fuel(pow256, 9);
            lemma_le_round_trip(x as nat, 8);
            assert(s.take(8) =~= le_bytes(x as nat, 8));
        },
        Shape::U128 => {
            let x = m->U128_0;
            reveal_with_fuel(pow256, 17);
            lemma_le_round_trip(x as nat, 16);
            assert(s.take(16) =~= le_bytes(x as nat, 16));
        },
        Shape::I8 => {
            let x = m->I8_0 as int;
            reveal_with_fuel(pow256, 2);
            lemma_signed_round_trip(x, 1);
            lemma_le_round_trip(twos(x, 1), 1);
            assert(s.take(1) =~= le_bytes(twos(x, 1), 1));
        },
        Shape::I16 => {
            let x = m->I16_0 as int;
            reveal_with_fuel(pow256, 3);
            lemma_signed_round_trip(x, 2);
            lemma_le_round_trip(twos(x, 2), 2);
            assert(s.take(2) =~= le_bytes(twos(x, 2), 2));
        },
        Shape::I32 => {
            let x = m->I32_0 as int;
            reveal_with_fuel(pow256, 5);
            lemma_signed_round_trip(x, 4);
            lemma_le_round_trip(twos(x, 4), 4);
            assert(s.take(4) =~= le_bytes(twos(x, 4), 4));
        },
        Shape::I64 => {
            let x = m->I64_0 as int;
            reveal_with_fuel(pow256, 9);
            lemma_signed_round_trip(x, 8);
            lemma_le_round_trip(twos(x, 8), 8);
            assert(s.take(8) =~= le_bytes(twos(x, 8), 8));
        },
        Shape::I128 => {
            let x = m->I128_0 as int;
            reveal_with_fuel(pow256, 17);
            lemma_signed_round_trip(x, 16);
            lemma_le_round_trip(twos(x, 16), 16);
            assert(s.take(16) =~= le_bytes(twos(x, 16), 16));
        },
        Shape::Text => {
            let e = encode_utf8(m->Text_0);
            reveal_with_fuel(pow256, 5);
            lemma_le_round_trip(e.len(), 4);
            assert(s.take(4) =~= le_bytes(e.len(), 4));
            assert(s.subrange(4, 4 + e.len() as int) =~= e);
            encode_utf8_valid_utf8(m->Text_0);
            encode_utf8_decode_utf8(m->Text_0);
        },
        Shape::Bytes => {
            let b = m->Bytes_0;
            reveal_with_fuel(pow256, 5);
            lemma_le_round_trip(b.len(), 4);
            assert(s.take(4) =~= le_bytes(b.len(), 4));
            assert(s.subrange(4, 4 + b.len() as int) =~= b);
        },
        Shape::Opt(inner) => {
            match m->Opt_0 {
                None => {},
                Some(b) => {
                    lemma_decode_encode(*b, *inner, rest);
                    assert(s.subrange(1, s.len() as int) =~= encode(*b) + rest);
                },
            }
        },
        Shape::List(inner) => {
            let ms = m->List_0;
            reveal_with_fuel(pow256, 5);
            lemma_le_round_trip(ms.len(), 4);
            assert(s.take(4) =~= le_bytes(ms.len(), 4));
            assert(s.subrange(4, s.len() as int) =~= encode_all(ms) + rest);
            lemma_decode_encode_many(ms, *inner, rest);
        },
        Shape::Record(shs) => {
            lemma_decode_encode_fields(m->Record_0, shs@, rest);
        },
    }
}

/// Values of one shape decode from their layouts, whatever follows them.
proof fn lemma_decode_encode_many(ms: Seq<ValueModel>, sh: Shape, rest: Seq<u8>)
    requires
        fits_all(ms),
        conforms_each(ms, sh),
    ensures
        decode_many(sh, ms.len(), encode_all(ms) + rest) == Some((ms, encode_all(ms).len())),
    decreases sh, ms.len(),
{
    if ms.len() == 0 {
        assert(ms =~= Seq::<ValueModel>::empty());
    } else {
        let tail = ms.subrange(1, ms.len() as int);
        let s = encode_all(ms) + rest;
        lemma_decode_encode(ms[0], sh, encode_all(tail) + rest);
        assert(s =~= encode(ms[0]) + (encode_all(tail) + rest));
        assert(s.subrange(encode(ms[0]).len() as int, s.len() as int) =~= encode_all(tail) + rest);
        lemma_decode_encode_many(tail, sh, rest);
        assert(seq![ms[0]] + tail =~= ms);
    }
}

/// Fields decode from their layouts, whatever follows them.
proof fn lemma_decode_encode_fields(ms: Seq<ValueModel>, shs: Seq<Shape>, rest: Seq<u8>)
    requires
        fits_all(ms),
        conforms_fields(ms, shs),
    ensures
        decode_fields(shs, encode_all(ms) + rest) == Some((ms, encode_all(ms).len())),
    decreases shs, 0nat,
{
    if shs.len() == 0 {
        assert(ms =~= Seq::<ValueModel>::empty());
        assert(encode_all(ms) + rest =~= rest);
    } else {
        let tail = ms.subrange(1, ms.len() as int);
        let s = encode_all(ms) + rest;
        lemma_decode_encode(ms[0], shs[0], encode_all(tail) + rest);
        assert(s =~= encode(ms[0]) + (encode_all(tail) + rest));
        assert(s.subrange(encode(ms[0]).len() as int, s.len() as int) =~= encode_all(tail) + rest);
        lemma_decode_encode_fields(tail, shs.subrange(1, shs.len() as int), rest);
        assert(seq![ms[0]] + tail =~= ms);
    }
}

/// Encoding a list of arguments and decoding the bytes with the arguments'
/// shapes gives back exactly those arguments, and takes every byte.
pub proof fn lemma_round_trip(args: Seq<ValueModel>, shapes: Seq<Shape>)
    requires
        fits_all(args),
        conforms_fields(args, shapes),
    ensures
        decode_fields(shapes, encode_all(args)) == Some((args, encode_all(args).len())),
{
    lemma_decode_encode_fields(args, shapes, Seq::empty());
    assert(encode_all(args) + Seq::<u8>::empty() =~= encode_all(args));
}


/// Relies on `std::str::from_utf8`: it accepts exactly the valid UTF-8 byte
/// strings, and gives the text that they encode.
#[verifier::external_body]
fn utf8_text(b: &[u8]) -> (r: Option<String>)
    ensures
        r is Some <==> valid_utf8(b@),
        r is Some ==> r->Some_0@ == decode_utf8(b@),
{
    match std::str::from_utf8(b) {
        Ok(t) => Some(t.to_string()),
        Err(_) => None,
    }
}

/// Puts `more`, read from `k` bytes, after `ms`, read from `n` bytes.
pub open spec fn join(ms: Seq<ValueModel>, n: nat, more: Option<(Seq<ValueModel>, nat)>) -> Option<
    (Seq<ValueModel>, nat),
> {
    match more {
        None => None,
        Some((ms2, k)) => Some((ms + ms2, n + k)),
    }
}

/// Appending a value appends its model.
proof fn lemma_models_push(vs: Seq<Value>, v: Value)
    ensures
        models(vs.push(v)) == models(vs).push(model(v)),
{
    lemma_models(vs);
    lemma_models(vs.push(v));
    assert(models(vs.push(v)) =~= models(vs).push(model(v)));
}

/// Reads one value of shape `sh` from `bytes` at `pos`.
pub fn decode_value(sh: &Shape, bytes: &[u8], pos: usize) -> (r: Option<(Value, usize)>)
    requires
        pos <= bytes@.len(),
    ensures
        match decode(*sh, bytes@.subrange(pos as int, bytes@.len() as int)) {
            None => r is None,
            Some((m, k)) => r is Some && r->Some_0.0@ == m && r->Some_0.1 == pos + k,
        },
        r is Some ==> r->Some_0.1 <= bytes@.len(),
    decreases sh, 0nat,
{
    let len = bytes.len();
    let ghost s = bytes@.subrange(pos as int, len as int);
    match sh {
        Shape::Bool => {
            if pos < len && bytes[pos] <= 1 {
                Some((Value::Bool(bytes[pos] == 1), pos + 1))
            } else {
                None
            }
        },
        Shape::U8 => {
            if pos < len {
                Some((Value::U8(bytes[pos]), pos + 1))
            } else {
                None
            }
        },
        Shape::U16 => {
            if len - pos >= 2 {
                let x = get_le(bytes, pos, 2);
                proof {
                    assert(s.take(2) =~= bytes@.subrange(pos as int, pos + 2));
                }
                Some((Value::U16(x as u16), pos + 2))
            } else {
                None
            }
        },
        Shape::U32 => {
            if len - pos >= 4 {
                let x = get_le(bytes, pos, 4);
                proof {
                    assert(s.take(4) =~= bytes@.subrange(pos as int, pos + 4));
                }
                Some((Value::U32(x as u32), pos + 4))
            } else {
                None
            }
        },
        Shape::U64 => {
            if len - pos >= 8 {
                let x = get_le(bytes, pos, 8);
                proof {
                    assert(s.take(8) =~= bytes@.subrange(pos as int, pos + 8));
                }
                Some((Value::U64(x as u64), pos + 8))
            } else {
                None
            }
        },
        Shape::U128 => {
            if len - pos >= 16 {
                let x = get_le(bytes, pos, 16);
                proof {
                    assert(s.take(16) =~= bytes@.subrange(pos as int, pos + 16));
                }
                Some((Value::U128(x), pos + 16))
            } else {
                None
            }
        },
        Shape::I8 => {
            if len - pos >= 1 {
                let x = get_signed(bytes, pos, 1);
                proof {
                    reveal_with_fuel(pow256, 2);
                    assert(s.take(1) =~= bytes@.subrange(pos as int, pos + 1));
                }
                Some((Value::I8(x as i8), pos + 1))
            } else {
                None
            }
        },
        Shape::I16 => {
            if len - pos >= 2 {
                let x = get_signed(bytes, pos, 2);
                proof {
                    reveal_with_fuel(pow256, 3);
                    assert(s.take(2) =~= bytes@.subrange(pos as int, pos + 2));
                }
                Some((Value::I16(x as i16), pos + 2))
            } else {
                None
            }
        },
        Shape::I32 => {
            if len - pos >= 4 {
                let x = get_signed(bytes, pos, 4);
                proof {
                    reveal_with_fuel(pow256, 5);
                    assert(s.take(4) =~= bytes@.subrange(pos as int, pos + 4));
                }
                Some((Value::I32(x as i32), pos + 4))
            } else {
                None
            }
        },
        Shape::I64 => {
            if len - pos >= 8 {
                let x = get_signed(bytes, pos, 8);
                proof {
                    reveal_with_fuel(pow256, 9);
                    assert(s.take(8) =~= bytes@.subrange(pos as int, pos + 8));
                }
                Some((Value::I64(x as i64), pos + 8))
            } else {
                None
            }
        },
        Shape::I128 => {
            if len - pos >= 16 {
                let x = get_signed(bytes, pos, 16);
                proof {
                    reveal_with_fuel(pow256, 17);
                    assert(s.take(16) =~= bytes@.subrange(pos as int, pos + 16));
                }
                Some((Value::I128(x as i128), pos + 16))
            } else {
                None
            }
        },
        Shape::Text => {
            if len - pos < 4 {
                return None;
            }
            let n = get_le(bytes, pos, 4);
            proof {
                assert(s.take(4) =~= bytes@.subrange(pos as int, pos + 4));
            }
            if n > (len - pos - 4) as u128 {
                return None;
            }
            let end = pos + 4 + n as usize;
            let body = slice_subrange(bytes, pos + 4, end);
            proof {
                assert(body@ =~= s.subrange(4, 4 + n as int));
            }
            match utf8_text(body) {
                Some(t) => Some((Value::Text(t), end)),
                None => None,
            }
        },
        Shape::Bytes => {
            if len - pos < 4 {
                return None;
            }
            let n = get_le(bytes, pos, 4);
            proof {
                assert(s.take(4) =~= bytes@.subrange(pos as int, pos + 4));
            }
            if n > (len - pos - 4) as u128 {
                return None;
            }
            let end = pos + 4 + n as usize;
            let body = slice_subrange(bytes, pos + 4, end);
            proof {
                assert(body@ =~= s.subrange(4, 4 + n as int));
            }
            Some((Value::Bytes(slice_to_vec(body)), end))
        },
        Shape::Opt(inner) => {
            if pos >= len {
                None
            } else if bytes[pos] == 0 {
                Some((Value::Opt(None), pos + 1))
            } else if bytes[pos] == 1 {
                proof {
                    assert(s.subrange(1, s.len() as int) =~= bytes@.subrange(pos + 1, len as int));
                }
                match decode_value(inner, bytes, pos + 1) {
                    Some((v, e)) => Some((Value::Opt(Some(Box::new(v))), e)),
                    None => None,
                }
            } else {
                None
            }
        },
        Shape::List(inner) => {
            if len - pos < 4 {
                return None;
            }
            let n = get_le(bytes, pos, 4);
            proof {
                assert(s.take(4) =~= bytes@.subrange(pos as int, pos + 4));
                assert(s.subrange(4, s.len() as int) =~= bytes@.subrange(pos + 4, len as int));
            }
            match decode_repeat(inner, n, bytes, pos + 4) {
                Some((vs, e)) => Some((Value::List(vs), e)),
                None => None,
            }
        },
        Shape::Record(shs) => {
            match decode_fields_at(shs, bytes, pos) {
                Some((vs, e)) => Some((Value::Record(vs), e)),
                None => None,
            }
        },
    }
}

/// Reads `n` values of shape `sh` from `bytes` at `pos`, one after the other.
fn decode_repeat(sh: &Shape, n: u128, bytes: &[u8], pos: usize) -> (r: Option<(Vec<Value>, usize)>)
    requires
        pos <= bytes@.len(),
    ensures
        match decode_many(*sh, n as nat, bytes@.subrange(pos as int, bytes@.len() as int)) {
            None => r is None,
            Some((ms, k)) => r is Some && models(r->Some_0.0@) == ms && r->Some_0.1 == pos + k,
        },
        r is Some ==> r->Some_0.1 <= bytes@.len(),
    decreases sh, 1nat,
{
    let len = bytes.len();
    let mut vs: Vec<Value> = Vec::new();
    let mut cur: usize = pos;
    let mut i: u128 = 0;
    proof {
        assert(models(vs@) =~= Seq::<ValueModel>::empty());
        let d = decode_many(*sh, n as nat, bytes@.subrange(pos as int, len as int));
        if let Some((ms, k)) = d {
            assert(Seq::<ValueModel>::empty() + ms =~= ms);
        }
    }
    while i < n
        invariant
            len == bytes@.len(),
            pos <= cur <= len,
            i <= n,
            decode_many(*sh, n as nat, bytes@.subrange(pos as int, len as int)) == join(
                models(vs@),
                (cur - pos) as nat,
                decode_many(*sh, (n - i) as nat, bytes@.subrange(cur as int, len as int)),
            ),
        decreases n - i,
    {
        let ghost here = bytes@.subrange(cur as int, len as int);
        match decode_value(sh, bytes, cur) {
            None => {
                return None;
            },
            Some((v, e)) => {
                proof {
                    assert(here.subrange((e - cur) as int, here.len() as int) =~= bytes@.subrange(
                        e as int,
                        len as int,
                    ));
                    lemma_models_push(vs@, v);
                    let rest = decode_many(*sh, (n - i - 1) as nat, bytes@.subrange(e as int, len as int));
                    if let Some((ms2, k2)) = rest {
                        assert(models(vs@) + (seq![v@] + ms2) =~= models(vs@).push(v@) + ms2);
                    }
                }
                vs.push(v);
                cur = e;
            },
        }
        i = i + 1;
    }
    proof {
        assert(models(vs@) + Seq::<ValueModel>::empty() =~= models(vs@));
    }
    Some((vs, cur))
}

/// Reads one value of each shape of `shs` from `bytes` at `pos`, in order.
fn decode_fields_at(shs: &Vec<Shape>, bytes: &[u8], pos: usize) -> (r: Option<(Vec<Value>, usize)>)
    requires
        pos <= bytes@.len(),
    ensures
        match decode_fields(shs@, bytes@.subrange(pos as int, bytes@.len() as int)) {
            None => r is None,
            Some((ms, k)) => r is Some && models(r->Some_0.0@) == ms && r->Some_0.1 == pos + k,
        },
        r is Some ==> r->Some_0.1 <= bytes@.len(),
    decreases shs, 0nat,
{
    let len = bytes.len();
    let mut vs: Vec<Value> = Vec::new();
    let mut cur: usize = pos;
    let mut i: usize = 0;
    proof {
        assert(models(vs@) =~= Seq::<ValueModel>::empty());
        assert(shs@.subrange(0, shs@.len() as int) =~= shs@);
        let d = decode_fields(shs@, bytes@.subrange(pos as int, len as int));
        if let Some((ms, k)) = d {
            assert(Seq::<ValueModel>::empty() + ms =~= ms);
        }
    }
    while i < shs.len()
        invariant
            len == bytes@.len(),
            pos <= cur <= len,
            i <= shs@.len(),
            decode_fields(shs@, bytes@.subrange(pos as int, len as int)) == join(
                models(vs@),
                (cur - pos) as nat,
                decode_fields(
                    shs@.subrange(i as int, shs@.len() as int),
                    bytes@.subrange(cur as int, len as int),
                ),
            ),
        decreases shs@.len() - i,
    {
        let ghost here = bytes@.subrange(cur as int, len as int);
        let ghost pending = shs@.subrange(i as int, shs@.len() as int);
        proof {
            assert(pending.subrange(1, pending.len() as int) =~= shs@.subrange(i + 1, shs@.len() as int));
            assert(decreases_to!(shs => shs[i as int]));
        }
        match decode_value(&shs[i], bytes, cur) {
            None => {
                return None;
            },
            Some((v, e)) => {
                proof {
                    assert(here.subrange((e - cur) as int, here.len() as int) =~= bytes@.subrange(
                        e as int,
                        len as int,
                    ));
                    lemma_models_push(vs@, v);
                    let rest = decode_fields(
                        shs@.subrange(i + 1, shs@.len() as int),
                        bytes@.subrange(e as int, len as int),
                    );
                    if let Some((ms2, k2)) = rest {
                        assert(models(vs@) + (seq![v@] + ms2) =~= models(vs@).push(v@) + ms2);
                    }
                }
                vs.push(v);
                cur = e;
            },
        }
        i = i + 1;
    }
    proof {
        assert(models(vs@) + Seq::<ValueModel>::empty() =~= models(vs@));
    }
    Some((vs, cur))
}


/// The payload layout of a list of arguments: each one's layout in turn.
pub fn encode_args(args: &Vec<Value>) -> (r: Vec<u8>)
    requires
        fits_all(models(args@)),
    ensures
        r@ == encode_all(models(args@)),
{
    let mut out: Vec<u8> = Vec::new();
    encode_each(args, &mut out);
    assert(out@ =~= encode_all(models(args@)));
    out
}

/// Reads a list of arguments of the given shapes that takes all of `bytes`.
pub fn decode_args(shapes: &Vec<Shape>, bytes: &[u8]) -> (r: Option<Vec<Value>>)
    ensures
        match decode_fields(shapes@, bytes@) {
            Some((ms, k)) => if k == bytes@.len() {
                r is Some && models(r->Some_0@) == ms
            } else {
                r is None
            },
            None => r is None,
        },
{
    proof {
        assert(bytes@.subrange(0, bytes@.len() as int) =~= bytes@);
    }
    match decode_fields_at(shapes, bytes, 0) {
        Some((vs, end)) => {
            if end == bytes.len() {
                Some(vs)
            } else {
                None
            }
        },
        None => None,
    }
}

} // verus!
