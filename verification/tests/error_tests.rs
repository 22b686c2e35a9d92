use question_scraper::error::{AppError, AppErrorType, ExtractionError, ScrapeError};

#[test]
fn test_default_db_error() {
    let db_error = AppError {
        message: None,
        cause: None,
        error_type: AppErrorType::DbError,
    };

    assert_eq!(
        db_error.message(),
        "An unexpected error has occured".to_string(),
        "Default message should be shown"
    );
}

#[test]
fn test_default_not_found_error() {
    let db_error = AppError {
        message: None,
        cause: None,
        error_type: AppErrorType::NotFoundError,
    };

    assert_eq!(
        db_error.message(),
        "The requested item was not found".to_string(),
        "Default message should be shown"
    );
}

#[test]
fn test_user_db_error() {
    let user_message = "User-facing message".to_string();

    let db_error = AppError {
        message: Some(user_message.clone()),
        cause: None,
        error_type: AppErrorType::DbError,
    };

    assert_eq!(
        db_error.message(),
        user_message,
        "User-facing message should be shown"
    );
}

#[test]
fn test_db_error_status_code() {
    let expected = 500;

    let db_error = AppError {
        message: None,
        cause: None,
        error_type: AppErrorType::DbError,
    };

    assert_eq!(
        db_error.status_code(),
        expected,
        "Status code for DbError should be {}",
        expected
    );
}

#[test]
fn test_not_found_status_code() {
    let error = AppError {
        message: Some("gone".to_string()),
        cause: None,
        error_type: AppErrorType::NotFoundError,
    };
    assert_eq!(error.status_code(), 404);
}

#[test]
fn test_user_message_wins_over_class() {
    let error = AppError {
        message: Some("No such tag".to_string()),
        cause: Some("row missing".to_string()),
        error_type: AppErrorType::NotFoundError,
    };
    assert_eq!(error.message(), "No such tag");
}

#[test]
fn test_error_response_carries_message() {
    let error = AppError {
        message: None,
        cause: Some("connection reset".to_string()),
        error_type: AppErrorType::DbError,
    };
    assert_eq!(error.error_response().error, "An unexpected error has occured");
}

#[test]
fn test_db_error_keeps_cause() {
    let error = AppError::db_error("pool timed out".to_string());
    assert_eq!(error.cause, Some("pool timed out".to_string()));
    assert_eq!(error.message, None);
    assert!(matches!(error.error_type, AppErrorType::DbError));
    assert_eq!(error.status_code(), 500);
}

#[test]
fn test_only_a_failed_fetch_ends_a_run() {
    assert!(ScrapeError::Fetch("timeout".to_string()).ends_run());
    assert!(!ScrapeError::Extraction(ExtractionError::MissingTitle).ends_run());
    assert!(!ScrapeError::Persistence("down".to_string()).ends_run());
    assert!(!ScrapeError::Resolution("down".to_string()).ends_run());
}
