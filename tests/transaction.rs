use anchor_litesvm::{
    classify_error, require_signers, ErrorKind, ExecutionMeta, TransactionError, TransactionResult,
};

fn transfer_logs() -> Vec<String> {
    vec![
        "Program 11111111111111111111111111111111 invoke [1]".to_string(),
        "Program 11111111111111111111111111111111 success".to_string(),
    ]
}

fn succeeded() -> TransactionResult {
    TransactionResult::new(
        ExecutionMeta { logs: transfer_logs(), compute_units_consumed: 150 },
        None,
    )
}

fn unfunded() -> TransactionResult {
    TransactionResult::new_failed(
        "AccountNotFound".to_string(),
        ExecutionMeta { logs: vec![], compute_units_consumed: 0 },
        None,
    )
}

fn custom(code_text: &str) -> TransactionResult {
    TransactionResult::new_failed(
        format!("Error processing Instruction 0: custom program error: {}", code_text),
        ExecutionMeta {
            logs: vec![
                "Program Vault111 invoke [1]".to_string(),
                "Program log: AnchorError occurred. Error Code: InsufficientBalance.".to_string(),
                "Program Vault111 failed: custom program error: 0x1770".to_string(),
            ],
            compute_units_consumed: 2400,
        },
        Some("withdraw".to_string()),
    )
}

#[test]
fn test_transaction_result_success() {
    let result = succeeded();
    assert!(result.is_success());
    assert_eq!(result.error(), None);
    result.assert_success().unwrap();
}

#[test]
fn test_transaction_result_has_log() {
    assert!(succeeded().has_log("invoke"));
    assert!(!succeeded().has_log("nothing like this"));
}

#[test]
fn test_transaction_result_find_log() {
    let result = succeeded();
    let log = result.find_log("invoke");
    assert!(log.is_some());
    assert_eq!(log.unwrap(), "Program 11111111111111111111111111111111 invoke [1]");
    assert_eq!(result.find_log("Program").unwrap(), &transfer_logs()[0]);
    assert_eq!(result.find_log("success").unwrap(), &transfer_logs()[1]);
    assert!(result.find_log("absent").is_none());
    assert_eq!(result.has_log("absent"), result.find_log("absent").is_some());
}

#[test]
fn test_transaction_result_compute_units() {
    let cu = succeeded().compute_units();
    assert!(cu > 0);
    assert!(cu < 1_000_000);
    assert_eq!(unfunded().compute_units(), 0);
}

#[test]
fn test_transaction_result_logs() {
    let result = succeeded();
    let logs = result.logs();
    assert!(!logs.is_empty());
    assert_eq!(logs, &transfer_logs()[..]);
}

#[test]
fn test_transaction_result_inner() {
    let result = succeeded();
    let inner = result.inner();
    assert!(inner.compute_units_consumed > 0);
    assert_eq!(inner.logs.len(), 2);
}

#[test]
fn test_transaction_result_failure() {
    let result = unfunded();
    assert!(!result.is_success());
    assert!(result.error().is_some());
}

#[test]
fn test_transaction_result_assert_failure() {
    unfunded().assert_failure().unwrap();
}

#[test]
#[should_panic(expected = "Expected transaction to fail")]
fn test_transaction_result_assert_failure_on_success() {
    succeeded().assert_failure().unwrap();
}

#[test]
fn test_transaction_result_assert_error() {
    unfunded().assert_error("AccountNotFound").unwrap();
}

#[test]
#[should_panic(expected = "Transaction failed with unexpected error")]
fn test_transaction_result_assert_error_wrong_message() {
    unfunded().assert_error("this error does not exist").unwrap();
}

#[test]
fn test_transaction_result_debug() {
    let debug_str = format!("{:?}", succeeded());
    assert!(debug_str.contains("TransactionResult"));
}

#[test]
fn test_send_instruction_no_signers() {
    let result = require_signers(0);
    assert!(result.is_err());
    match result {
        Err(TransactionError::BuildError(msg)) => {
            assert!(msg.contains("No signers"));
        }
        _ => panic!("Expected BuildError"),
    }
}

#[test]
fn test_send_instructions_no_signers() {
    assert!(require_signers(0).is_err());
    assert!(require_signers(1).is_ok());
}

#[test]
fn failure_report_holds_error_and_logs() {
    let result = custom("0x1770");
    match result.assert_success() {
        Err(TransactionError::AssertionFailed(m)) => {
            assert_eq!(
                m,
                "Transaction failed: Error processing Instruction 0: custom program error: 0x1770\n\
                 Logs:\nProgram Vault111 invoke [1]\n\
                 Program log: AnchorError occurred. Error Code: InsufficientBalance.\n\
                 Program Vault111 failed: custom program error: 0x1770"
            );
        }
        _ => panic!("expected a failed check"),
    }
}

#[test]
fn assert_success_on_failure_shows_logs() {
    let err = custom("0x1770").assert_success().unwrap_err();
    let text = err.message();
    assert!(text.starts_with("Assertion failed: Transaction failed: "));
    assert!(text.contains("Program Vault111 invoke [1]"));
}

#[test]
fn error_code_matches_hex_rendering() {
    custom("0x1770").assert_error_code(6000).unwrap();
    let wrong = custom("0x1770").assert_error_code(6001).unwrap_err();
    match wrong {
        TransactionError::AssertionFailed(m) => {
            assert!(m.contains("Expected substring: custom program error: 0x1771"));
            assert!(m.contains("Actual error: Error processing Instruction 0: custom program error: 0x1770"));
        }
        _ => panic!("expected a failed check"),
    }
    assert!(succeeded().assert_error_code(6000).is_err());
    custom("0x0").assert_error_code(0).unwrap();
    custom("0xffffffff").assert_error_code(u32::MAX).unwrap();
}

#[test]
fn assert_error_on_success_says_so() {
    match succeeded().assert_error("AccountNotFound") {
        Err(TransactionError::AssertionFailed(m)) => {
            assert!(m.starts_with(
                "Expected transaction to fail with error containing 'AccountNotFound', but it succeeded."
            ));
            assert!(m.ends_with("invoke [1]\nProgram 11111111111111111111111111111111 success"));
        }
        _ => panic!("expected a failed check"),
    }
}

#[test]
fn named_errors_are_found_in_logs_or_error() {
    let result = custom("0x1770");
    result.assert_anchor_error("InsufficientBalance").unwrap();
    result.assert_anchor_error("custom program error").unwrap();
    assert!(result.assert_anchor_error("Unrelated").is_err());
    assert!(succeeded().assert_anchor_error("InsufficientBalance").is_err());
    result.assert_log_error("AnchorError occurred").unwrap();
    match result.assert_log_error("Missing") {
        Err(TransactionError::AssertionFailed(m)) => {
            assert!(m.starts_with("Expected error message 'Missing' not found in logs.\nLogs:\n"));
        }
        _ => panic!("expected a failed check"),
    }
}

#[test]
fn checks_return_the_result_for_chaining() {
    let result = succeeded();
    let same = result.assert_success().unwrap().assert_log_error("success").unwrap();
    assert_eq!(same.compute_units(), 150);
}

#[test]
fn errors_are_classified() {
    assert_eq!(unfunded().error_kind(), Some(ErrorKind::AccountNotFound));
    assert_eq!(succeeded().error_kind(), None);
    assert_eq!(custom("0x1770").error_kind(), Some(ErrorKind::Custom(6000)));
    assert_eq!(classify_error("InstructionError(0, Custom(6000))"), ErrorKind::Custom(6000));
    assert_eq!(classify_error("InsufficientFundsForFee"), ErrorKind::InsufficientFunds);
    assert_eq!(
        classify_error("Transfer: insufficient lamports 5, need 10"),
        ErrorKind::Other("Transfer: insufficient lamports 5, need 10".to_string())
    );
    assert_eq!(
        classify_error("custom program error: 0x100000000"),
        ErrorKind::Other("custom program error: 0x100000000".to_string())
    );
    assert_eq!(classify_error("custom program error: 0xAB"), ErrorKind::Custom(0xab));
    assert_eq!(classify_error(""), ErrorKind::Other(String::new()));
}

#[test]
fn error_messages_have_their_kind() {
    assert_eq!(
        TransactionError::BuildError("No signers provided".to_string()).message(),
        "Transaction build error: No signers provided"
    );
    assert_eq!(
        TransactionError::ExecutionFailed("x".to_string()).message(),
        "Transaction execution failed: x"
    );
}

#[test]
fn instruction_name_is_kept() {
    assert_eq!(custom("0x1").instruction_name().map(|s| s.as_str()), Some("withdraw"));
    assert_eq!(succeeded().instruction_name(), None);
}

#[test]
fn test_transaction_result_print_logs() {
    assert_eq!(
        succeeded().log_report(),
        "=== Transaction Logs ===\n\
         Program 11111111111111111111111111111111 invoke [1]\n\
         Program 11111111111111111111111111111111 success\n\
         Compute Units: 150\n\
         ========================"
    );
    assert_eq!(
        custom("0x1770").log_report(),
        "=== Transaction Logs ===\n\
         Instruction: withdraw\n\
         Program Vault111 invoke [1]\n\
         Program log: AnchorError occurred. Error Code: InsufficientBalance.\n\
         Program Vault111 failed: custom program error: 0x1770\n\
         Error: Error processing Instruction 0: custom program error: 0x1770\n\
         Compute Units: 2400\n\
         ========================"
    );
    assert!(unfunded().log_report().contains("Compute Units: 0\n"));
}

#[test]
fn error_code_rejects_codes_that_only_start_the_same() {
    let result = custom("0x1770");
    for code in [1u32, 23, 375, 6001, 0x17700] {
        match result.assert_error_code(code) {
            Err(TransactionError::AssertionFailed(m)) => {
                assert!(m.contains(&format!("Expected substring: custom program error: 0x{:x}", code)));
                assert!(m.contains("Actual error: Error processing Instruction 0: custom program error: 0x1770"));
                assert!(m.contains("Program Vault111 invoke [1]"));
            }
            _ => panic!("code {} must not match", code),
        }
    }
    assert!(custom("0x17700").assert_error_code(6000).is_err());
    custom("0x1770 (InsufficientBalance)").assert_error_code(6000).unwrap();
}

#[test]
fn summary_names_the_outcome() {
    assert_eq!(
        succeeded().summary(),
        "TransactionResult { instruction: None, success: true, error: None, compute_units: 150, log_count: 2 }"
    );
    assert_eq!(
        unfunded().summary(),
        "TransactionResult { instruction: None, success: false, error: Some(\"AccountNotFound\"), compute_units: 0, log_count: 0 }"
    );
    assert!(custom("0x1").summary().starts_with("TransactionResult { instruction: Some(\"withdraw\"), success: false,"));
}
