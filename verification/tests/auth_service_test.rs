use forum_core::models::user::{CreateUserDto, LoginDto};
use forum_core::services::auth_service::AuthService;

fn service() -> AuthService {
    AuthService::new(b"test-signing-secret".to_vec())
}

fn dto(username: &str, email: &str, password: &str) -> CreateUserDto {
    CreateUserDto {
        username: username.to_string(),
        email: email.to_string(),
        password: password.to_string(),
    }
}

#[test]
fn test_register_user() {
    let mut service = service();

    let user = service
        .register(dto("user1", "user1@example.com", "password123"), 1_000)
        .unwrap();

    assert_eq!(user.username, "user1");
    assert_eq!(user.email, "user1@example.com");
}

#[test]
fn test_register_duplicate_email() {
    let mut service = service();
    let email = "shared@example.com";

    service
        .register(dto("user1", email, "password123"), 1_000)
        .unwrap();
    let result = service.register(dto("user2", email, "password456"), 1_001);

    assert!(result.is_err());
}

#[test]
fn test_login_success() {
    let mut service = service();
    let password = "password123";

    let created_user = service
        .register(dto("user1", "login@example.com", password), 1_000)
        .unwrap();

    let auth_response = service
        .login(
            LoginDto { email: "login@example.com".to_string(), password: password.to_string() },
            2_000,
        )
        .unwrap();

    assert_eq!(auth_response.user.id, created_user.id);
    assert!(!auth_response.token.is_empty());
}

#[test]
fn test_login_wrong_password() {
    let mut service = service();

    service
        .register(dto("user1", "wrongpw@example.com", "password123"), 1_000)
        .unwrap();

    let result = service.login(
        LoginDto {
            email: "wrongpw@example.com".to_string(),
            password: "wrongpassword".to_string(),
        },
        2_000,
    );
    assert!(result.is_err());
}

#[test]
fn test_verify_token() {
    let mut service = service();

    let created_user = service
        .register(dto("user1", "verify@example.com", "password123"), 1_000)
        .unwrap();

    let auth_response = service
        .login(
            LoginDto {
                email: "verify@example.com".to_string(),
                password: "password123".to_string(),
            },
            1_000,
        )
        .unwrap();
    let claims = service.verify_token(&auth_response.token, 1_000).unwrap();

    assert_eq!(claims.sub, created_user.id.to_string());
}

#[test]
fn test_verify_invalid_token() {
    let service = service();
    let result = service.verify_token("invalid.token.here", 0);
    assert!(result.is_err());
}
