use amax_lib::error::{poisoned, status_error, AppError, ErrorCode};

#[test]
fn display_shows_only_message() {
    let error = AppError::input("日期格式错误");
    assert_eq!(error.to_string(), "日期格式错误");
}

#[test]
fn only_auth_is_auth() {
    assert!(AppError::auth("x").is_auth());
    assert!(!AppError::data("x").is_auth());
    assert!(!AppError::network("x").is_auth());
}

#[test]
fn constructors_set_their_class() {
    assert_eq!(AppError::auth("a").code, ErrorCode::Auth);
    assert_eq!(AppError::network("n").code, ErrorCode::Network);
    assert_eq!(AppError::data("d").code, ErrorCode::Data);
    assert_eq!(AppError::input("i").code, ErrorCode::Input);
    assert_eq!(AppError::storage("s").code, ErrorCode::Storage);
    assert_eq!(AppError::new(ErrorCode::Data, "m").message, "m");
    assert!(!AppError::storage("s").is_auth());
    assert!(!AppError::input("i").is_auth());
}

#[test]
fn poisoned_lock_is_a_storage_error() {
    let error = poisoned("数据库");
    assert_eq!(error.code, ErrorCode::Storage);
    assert_eq!(error.message, "数据库状态已损坏，请重启应用");
}

#[test]
fn status_errors_are_classified_by_status() {
    let refused = status_error(401, "401 Unauthorized", "认证失败");
    assert_eq!(refused.code, ErrorCode::Auth);
    assert_eq!(refused.message, "认证失败: Cookie 无效或已过期, 请从浏览器重新获取");
    assert_eq!(status_error(403, "403 Forbidden", "认证失败").code, ErrorCode::Auth);

    let throttled = status_error(429, "429 Too Many Requests", "用量查询失败");
    assert_eq!(throttled.code, ErrorCode::Network);
    assert_eq!(throttled.message, "用量查询失败: 请求过于频繁, 请稍后重试");

    let unavailable = status_error(503, "503 Service Unavailable", "认证失败");
    assert_eq!(unavailable.code, ErrorCode::Network);
    assert_eq!(unavailable.message, "认证失败: HTTP 503 Service Unavailable");

    let missing = status_error(404, "404 Not Found", "用量查询失败");
    assert_eq!(missing.code, ErrorCode::Data);
    assert_eq!(missing.message, "用量查询失败: HTTP 404 Not Found");
}
