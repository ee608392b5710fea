use forum_core::middleware::auth_middleware::{get_current_user, Auth, AuthOutcome};
use forum_core::models::user::{CreateUserDto, LoginDto};
use forum_core::services::auth_service::AuthService;

fn service() -> AuthService {
    AuthService::new(b"middleware-secret".to_vec())
}

#[test]
fn test_auth_middleware_no_token() {
    let service = service();
    let middleware = Auth.new_transform();

    let outcome = middleware.call(&service, None, 1_000);

    assert_eq!(outcome, AuthOutcome::Rejected);
}

#[test]
fn test_auth_middleware_invalid_token() {
    let service = service();
    let middleware = Auth.new_transform();

    let outcome = middleware.call(&service, Some("Bearer invalid.token.here"), 1_000);

    assert_eq!(outcome, AuthOutcome::Rejected);
}

#[test]
fn test_auth_middleware_valid_token() {
    let mut service = service();
    let middleware = Auth.new_transform();

    let user = service
        .register(
            CreateUserDto {
                username: "user1".to_string(),
                email: "mw@example.com".to_string(),
                password: "password123".to_string(),
            },
            1_000,
        )
        .unwrap();
    let auth_response = service
        .login(
            LoginDto { email: "mw@example.com".to_string(), password: "password123".to_string() },
            1_000,
        )
        .unwrap();

    let header = format!("Bearer {}", auth_response.token);
    let outcome = middleware.call(&service, Some(&header), 1_000);

    assert_eq!(get_current_user(&outcome), Some(user.id));
}

#[test]
fn test_auth_middleware_malformed_token() {
    let service = service();
    let middleware = Auth.new_transform();

    let outcome = middleware.call(&service, Some("NotBearer some.token.here"), 1_000);

    assert_eq!(outcome, AuthOutcome::Rejected);
}
