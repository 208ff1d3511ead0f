//! Text helpers for outcome reports: substring search, hexadecimal and
//! decimal numerals, and logs joined line by line.

use vstd::prelude::*;
use vstd::string::{StrSliceExecFns, StringExecFns};
use vstd::utf8::encode_utf8;

verus! {

/// `pattern` occurs in `hay` at byte offset `i`.
pub open spec fn occurs_at(hay: Seq<u8>, pattern: Seq<u8>, i: int) -> bool {
    0 <= i && i + pattern.len() <= hay.len() && hay.subrange(i, i + pattern.len()) == pattern
}

/// `pattern` occurs somewhere in `hay`.
pub open spec fn has_subseq(hay: Seq<u8>, pattern: Seq<u8>) -> bool {
    exists|i: int| occurs_at(hay, pattern, i)
}

/// The text `pattern` occurs in the text `hay`, as a run of UTF-8 bytes.
pub open spec fn contains_text(hay: Seq<char>, pattern: Seq<char>) -> bool {
    has_subseq(encode_utf8(hay), encode_utf8(pattern))
}

/// Whether `pattern` occurs in `hay`.
pub fn bytes_contain(hay: &[u8], pattern: &[u8]) -> (r: bool)
    ensures
        r == has_subseq(hay@, pattern@),
{
    let n = hay.len();
    let m = pattern.len();
    if m > n {
        assert forall|i: int| !occurs_at(hay@, pattern@, i) by {}
        return false;
    }
    let mut i: usize = 0;
    while i <= n - m
        invariant
            n == hay@.len(),
            m == pattern@.len(),
            m <= n,
            i <= n - m + 1,
            forall|k: int| 0 <= k < i ==> !occurs_at(hay@, pattern@, k),
        decreases n - m + 1 - i,
    {
        let mut j: usize = 0;
        while j < m && hay[i + j] == pattern[j]
            invariant
                n == hay@.len(),
                m == pattern@.len(),
                i + m <= n,
                j <= m,
                forall|l: int| 0 <= l < j ==> hay@[i + l] == pattern@[l],
            decreases m - j,
        {
            j = j + 1;
        }
        if j == m {
            assert(hay@.subrange(i as int, i + m) =~= pattern@);
            assert(occurs_at(hay@, pattern@, i as int));
            return true;
        }
        assert(hay@.subrange(i as int, i + m)[j as int] != pattern@[j as int]);
        i = i + 1;
    }
    assert forall|k: int| !occurs_at(hay@, pattern@, k) by {
        if 0 <= k < i {
        }
    }
    false
}

/// Whether the text `pattern` occurs in the text `hay`.
pub fn text_contains(hay: &str, pattern: &str) -> (r: bool)
    ensures
        r == contains_text(hay@, pattern@),
{
    bytes_contain(hay.as_bytes(), pattern.as_bytes())
}

/// The lowercase hexadecimal digit of `d`.
pub open spec fn hex_char(d: nat) -> char {
    seq!['0', '1', '2', '3', '4', '5', '6', '7', '8', '9', 'a', 'b', 'c', 'd', 'e', 'f'][d as int]
}

/// The lowercase hexadecimal numeral of `n`, without leading zeros.
pub open spec fn hex_digits(n: nat) -> Seq<char>
    decreases n,
{
    if n < 16 {
        seq![hex_char(n)]
    } else {
        hex_digits(n / 16) + seq![hex_char(n % 16)]
    }
}

/// The decimal digit of `d`.
pub open spec fn dec_char(d: nat) -> char {
    seq!['0', '1', '2', '3', '4', '5', '6', '7', '8', '9'][d as int]
}

/// The decimal numeral of `n`, without leading zeros.
pub open spec fn dec_digits(n: nat) -> Seq<char>
    decreases n,
{
    if n < 10 {
        seq![dec_char(n)]
    } else {
        dec_digits(n / 10) + seq![dec_char(n % 10)]
    }
}

/// Appends the hexadecimal numeral of `n` to `out`.
pub fn push_hex(out: &mut String, n: u64)
    ensures
        final(out)@ == old(out)@ + hex_digits(n as nat),
    decreases n,
{
    if n >= 16 {
        push_hex(out, n / 16);
    }
    let d = (n % 16) as usize;
    let digits = "0123456789abcdef";
    proof {
        reveal_strlit("0123456789abcdef");
        assert(digits@ =~= seq![
            '0', '1', '2', '3', '4', '5', '6', '7', '8', '9', 'a', 'b', 'c', 'd', 'e', 'f',
        ]);
    }
    let c = digits.substring_ascii(d, d + 1);
    proof {
        assert(c@ =~= seq![hex_char(d as nat)]);
    }
    out.append(c);
}

/// Appends the decimal numeral of `n` to `out`.
pub fn push_dec(out: &mut String, n: u64)
    ensures
        final(out)@ == old(out)@ + dec_digits(n as nat),
    decreases n,
{
    if n >= 10 {
        push_dec(out, n / 10);
    }
    let d = (n % 10) as usize;
    let digits = "0123456789";
    proof {
        reveal_strlit("0123456789");
        assert(digits@ =~= seq!['0', '1', '2', '3', '4', '5', '6', '7', '8', '9']);
    }
    let c = digits.substring_ascii(d, d + 1);
    proof {
        assert(c@ =~= seq![dec_char(d as nat)]);
    }
    out.append(c);
}

/// The lines of `logs`, separated by line breaks.
pub open spec fn joined(logs: Seq<String>) -> Seq<char>
    decreases logs.len(),
{
    if logs.len() == 0 {
        Seq::empty()
    } else if logs.len() == 1 {
        logs[0]@
    } else {
        joined(logs.drop_last()) + "\n"@ + logs.last()@
    }
}

/// Appends the lines of `logs` to `out`, separated by line breaks.
pub fn push_joined(out: &mut String, logs: &[String])
    ensures
        final(out)@ == old(out)@ + joined(logs@),
{
    let mut i: usize = 0;
    proof {
        assert(logs@.subrange(0, 0) =~= Seq::<String>::empty());
    }
    while i < logs.len()
        invariant
            i <= logs@.len(),
            out@ == old(out)@ + joined(logs@.subrange(0, i as int)),
        decreases logs@.len() - i,
    {
        let ghost before = out@;
        let ghost done = logs@.subrange(0, i + 1);
        proof {
            assert(done.drop_last() =~= logs@.subrange(0, i as int));
        }
        if i > 0 {
            out.append("\n");
        }
        out.append(logs[i].as_str());
        proof {
            if i == 0 {
                assert(out@ =~= before + joined(done));
            } else {
                assert(out@ =~= before + "\n"@ + logs@[i as int]@);
            }
        }
        i = i + 1;
    }
    proof {
        assert(logs@.subrange(0, logs@.len() as int) =~= logs@);
    }
}


/// The first offset at or after `i` where `pattern` occurs in `hay`.
pub open spec fn find_from(hay: Seq<u8>, pattern: Seq<u8>, i: int) -> Option<int>
    decreases hay.len() + 1 - i,
{
    if i < 0 || i + pattern.len() > hay.len() {
        None
    } else if occurs_at(hay, pattern, i) {
        Some(i)
    } else {
        find_from(hay, pattern, i + 1)
    }
}

/// What the search from `i` finds is an occurrence, and the first from `i` on.
pub proof fn lemma_find_from(hay: Seq<u8>, pattern: Seq<u8>, i: int)
    requires
        0 <= i,
    ensures
        find_from(hay, pattern, i) matches Some(k) ==> i <= k && occurs_at(hay, pattern, k)
            && forall|l: int| i <= l < k ==> !occurs_at(hay, pattern, l),
        find_from(hay, pattern, i) is None ==> forall|l: int| i <= l ==> !occurs_at(hay, pattern, l),
    decreases hay.len() + 1 - i,
{
    if i >= 0 && i + pattern.len() <= hay.len() && !occurs_at(hay, pattern, i) {
        lemma_find_from(hay, pattern, i + 1);
    }
}

/// The first offset where `pattern` occurs in `hay`.
pub fn find_first(hay: &[u8], pattern: &[u8]) -> (r: Option<usize>)
    ensures
        r is None <==> find_from(hay@, pattern@, 0) is None,
        r matches Some(i) ==> find_from(hay@, pattern@, 0) == Some(i as int) && occurs_at(
            hay@,
            pattern@,
            i as int,
        ),
{
    proof {
        lemma_find_from(hay@, pattern@, 0);
    }
    let n = hay.len();
    let m = pattern.len();
    if m > n {
        return None;
    }
    let mut i: usize = 0;
    while i <= n - m
        invariant
            n == hay@.len(),
            m == pattern@.len(),
            m <= n,
            i <= n - m + 1,
            find_from(hay@, pattern@, 0) == find_from(hay@, pattern@, i as int),
        decreases n - m + 1 - i,
    {
        let mut j: usize = 0;
        while j < m && hay[i + j] == pattern[j]
            invariant
                n == hay@.len(),
                m == pattern@.len(),
                i + m <= n,
                j <= m,
                forall|l: int| 0 <= l < j ==> hay@[i + l] == pattern@[l],
            decreases m - j,
        {
            j = j + 1;
        }
        if j == m {
            assert(hay@.subrange(i as int, i + m) =~= pattern@);
            return Some(i);
        }
        assert(hay@.subrange(i as int, i + m)[j as int] != pattern@[j as int]);
        i = i + 1;
    }
    None
}

/// The value of the digit `b` in base `radix` (10 or 16), if it is one.
pub open spec fn digit_value(b: u8, radix: nat) -> Option<nat> {
    if 48 <= b <= 57 && (b - 48) < radix {
        Some((b - 48) as nat)
    } else if radix == 16 && 97 <= b <= 102 {
        Some((b - 87) as nat)
    } else if radix == 16 && 65 <= b <= 70 {
        Some((b - 55) as nat)
    } else {
        None
    }
}

/// The number of digits in base `radix` at the front of `s`.
pub open spec fn digit_run(s: Seq<u8>, radix: nat) -> nat
    decreases s.len(),
{
    if s.len() > 0 && digit_value(s[0], radix) is Some {
        1 + digit_run(s.drop_first(), radix)
    } else {
        0
    }
}

/// The number that the digits `s` write in base `radix`.
pub open spec fn digits_value(s: Seq<u8>, radix: nat) -> nat
    decreases s.len(),
{
    if s.len() == 0 {
        0
    } else {
        digits_value(s.drop_last(), radix) * radix + match digit_value(s.last(), radix) {
            Some(d) => d,
            None => 0,
        }
    }
}

/// The number written in base `radix` right after the first `marker` in
/// `text`, where there is a marker followed by at least one digit.
pub open spec fn number_after(text: Seq<u8>, marker: Seq<u8>, radix: nat) -> Option<nat> {
    match find_from(text, marker, 0) {
        None => None,
        Some(i) => {
            let rest = text.subrange(i + marker.len(), text.len() as int);
            let k = digit_run(rest, radix);
            if k == 0 {
                None
            } else {
                Some(digits_value(rest.take(k as int), radix))
            }
        },
    }
}

/// `k` leading digits, then the end or a non-digit, make a run of `k`.
proof fn lemma_digit_run_prefix(s: Seq<u8>, radix: nat, k: int)
    requires
        0 <= k <= s.len(),
        forall|l: int| 0 <= l < k ==> digit_value(#[trigger] s[l], radix) is Some,
    ensures
        k <= digit_run(s, radix),
        k == s.len() || digit_value(s[k], radix) is None ==> digit_run(s, radix) == k,
    decreases k,
{
    if k > 0 {
        lemma_digit_run_prefix(s.drop_first(), radix, k - 1);
    } else if s.len() > 0 && digit_value(s[0], radix) is None {
    }
}

/// The number in base `radix` (10 or 16) right after the first `marker` in
/// `text`, where it fits in a `u32`.
pub fn parse_number_after(text: &str, marker: &str, radix: u32) -> (r: Option<u32>)
    requires
        radix == 10 || radix == 16,
    ensures
        match number_after(encode_utf8(text@), encode_utf8(marker@), radix as nat) {
            Some(v) => if v <= u32::MAX {
                r == Some(v as u32)
            } else {
                r is None
            },
            None => r is None,
        },
{
    let hay = text.as_bytes();
    let pat = marker.as_bytes();
    let n = hay.len();
    let found = find_first(hay, pat);
    let start = match found {
        None => {
            return None;
        },
        Some(i) => i + pat.len(),
    };
    assert(find_from(hay@, pat@, 0) == Some((start - pat@.len()) as int));
    let ghost rest = hay@.subrange(start as int, n as int);
    let mut k: usize = start;
    let mut acc: u32 = 0;
    let mut overflow = false;
    proof {
        assert(rest.take(0) =~= Seq::<u8>::empty());
    }
    while k < n
        invariant
            n == hay@.len(),
            start <= k <= n,
            rest == hay@.subrange(start as int, n as int),
            radix == 10 || radix == 16,
            forall|l: int| 0 <= l < k - start ==> digit_value(#[trigger] rest[l], radix as nat) is Some,
            !overflow ==> acc as nat == digits_value(rest.take(k - start), radix as nat),
            overflow ==> digits_value(rest.take(k - start), radix as nat) > u32::MAX,
        ensures
            start <= k <= n,
            k == n || digit_value(rest[k - start], radix as nat) is None,
            forall|l: int| 0 <= l < k - start ==> digit_value(#[trigger] rest[l], radix as nat) is Some,
            !overflow ==> acc as nat == digits_value(rest.take(k - start), radix as nat),
            overflow ==> digits_value(rest.take(k - start), radix as nat) > u32::MAX,
        decreases n - k,
    {
        let b = hay[k];
        let d: u32 = if 48 <= b && b <= 57 && ((b - 48) as u32) < radix {
            (b - 48) as u32
        } else if radix == 16 && 97 <= b && b <= 102 {
            (b - 87) as u32
        } else if radix == 16 && 65 <= b && b <= 70 {
            (b - 55) as u32
        } else {
            break;
        };
        let ghost before = rest.take(k - start);
        let ghost after = rest.take(k - start + 1);
        proof {
            assert(after.drop_last() =~= before);
            assert(after.last() == b);
            assert(digit_value(b, radix as nat) == Some(d as nat));
        }
        if !overflow && acc <= (u32::MAX - d) / radix {
            proof {
                assert(acc * radix + d <= u32::MAX) by (nonlinear_arith)
                    requires
                        acc <= (u32::MAX as int - d as int) / (radix as int),
                        radix > 0,
                        d <= u32::MAX,
                ;
            }
            acc = acc * radix + d;
        } else {
            proof {
                let v = digits_value(before, radix as nat);
                if !overflow {
                    assert(v * radix + d > u32::MAX) by (nonlinear_arith)
                        requires
                            v > (u32::MAX as int - d as int) / (radix as int),
                            radix > 0,
                            d <= u32::MAX,
                    ;
                } else {
                    assert(v * radix + d >= v) by (nonlinear_arith)
                        requires
                            radix > 0,
                    ;
                }
            }
            overflow = true;
        }
        k = k + 1;
    }
    proof {
        lemma_digit_run_prefix(rest, radix as nat, k - start);
        assert(hay@ == encode_utf8(text@));
        assert(pat@ == encode_utf8(marker@));
        assert(digit_run(rest, radix as nat) == k - start);
    }
    if k == start || overflow {
        None
    } else {
        Some(acc)
    }
}


/// `pattern` occurs in `hay` at `i`, and no hexadecimal digit follows it.
pub open spec fn occurs_whole_at(hay: Seq<u8>, pattern: Seq<u8>, i: int) -> bool {
    occurs_at(hay, pattern, i) && (i + pattern.len() == hay.len() || digit_value(
        hay[i + pattern.len()],
        16,
    ) is None)
}

/// The text `pattern` occurs in the text `hay` with no hexadecimal digit
/// right after it, so that a numeral at its end is not cut short.
pub open spec fn contains_whole_hex(hay: Seq<char>, pattern: Seq<char>) -> bool {
    exists|i: int| occurs_whole_at(encode_utf8(hay), encode_utf8(pattern), i)
}

/// Whether the text `pattern` occurs in `hay` with no hexadecimal digit right
/// after it.
pub fn text_contains_whole_hex(hay: &str, pattern: &str) -> (r: bool)
    ensures
        r == contains_whole_hex(hay@, pattern@),
{
    let h = hay.as_bytes();
    let p = pattern.as_bytes();
    let n = h.len();
    let m = p.len();
    if m > n {
        assert forall|i: int| !occurs_whole_at(h@, p@, i) by {}
        return false;
    }
    let mut i: usize = 0;
    while i <= n - m
        invariant
            n == h@.len(),
            m == p@.len(),
            m <= n,
            h@ == encode_utf8(hay@),
            p@ == encode_utf8(pattern@),
            i <= n - m + 1,
            forall|k: int| 0 <= k < i ==> !occurs_whole_at(h@, p@, k),
        decreases n - m + 1 - i,
    {
        let mut j: usize = 0;
        while j < m && h[i + j] == p[j]
            invariant
                n == h@.len(),
                m == p@.len(),
                i + m <= n,
                j <= m,
                forall|l: int| 0 <= l < j ==> h@[i + l] == p@[l],
            decreases m - j,
        {
            j = j + 1;
        }
        if j == m {
            assert(h@.subrange(i as int, i + m) =~= p@);
            let whole = if i + m == n {
                true
            } else {
                let b = h[i + m];
                !((48 <= b && b <= 57) || (97 <= b && b <= 102) || (65 <= b && b <= 70))
            };
            if whole {
                assert(occurs_whole_at(h@, p@, i as int));
                return true;
            }
        } else {
            assert(h@.subrange(i as int, i + m)[j as int] != p@[j as int]);
        }
        i = i + 1;
    }
    assert forall|k: int| !occurs_whole_at(h@, p@, k) by {
        if 0 <= k < i {
        }
    }
    false
}

} // verus!
