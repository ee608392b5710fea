use forum_core::base64url::{b64url_decode, b64url_encode};
use forum_core::digits::{parse_u64_digits, u64_to_digits};
use forum_core::errors::{AuthError, StoreError};
use forum_core::middleware::auth_middleware::{get_current_user, Auth};
use forum_core::models::post::{CreatePostDto, UpdatePostDto};
use forum_core::models::user::{CreateUserDto, LoginDto};
use forum_core::services::auth_service::AuthService;
use forum_core::services::post_service::PostService;

const DAY: u64 = 86_400;

fn registered(service: &mut AuthService, email: &str, password: &str, now: u64) -> u64 {
    service
        .register(
            CreateUserDto {
                username: "someone".to_string(),
                email: email.to_string(),
                password: password.to_string(),
            },
            now,
        )
        .unwrap()
        .id
}

fn login(service: &AuthService, email: &str, password: &str, now: u64) -> String {
    service
        .login(LoginDto { email: email.to_string(), password: password.to_string() }, now)
        .unwrap()
        .token
}

#[test]
fn token_valid_until_expiry() {
    let mut service = AuthService::new(b"expiry-secret".to_vec());
    let id = registered(&mut service, "p3@example.com", "password123", 1_000);
    let token = login(&service, "p3@example.com", "password123", 1_000);

    // any time strictly before issued_at + 24h passes
    let claims = service.verify_token(&token, 1_000 + DAY - 1).unwrap();
    assert_eq!(claims.sub, id.to_string());
    assert_eq!(claims.iat, 1_000);
    assert_eq!(claims.exp, 1_000 + DAY);

    // from the expiry time on, the token is refused
    assert!(matches!(service.verify_token(&token, 1_000 + DAY), Err(AuthError::InvalidToken)));
    assert!(matches!(service.verify_token(&token, 5_000 + DAY), Err(AuthError::InvalidToken)));
}

#[test]
fn token_rejected_under_other_secret() {
    let mut issuing = AuthService::new(b"one-secret".to_vec());
    let other = AuthService::new(b"another-secret".to_vec());
    registered(&mut issuing, "p4@example.com", "password123", 1_000);
    let token = login(&issuing, "p4@example.com", "password123", 1_000);

    assert!(issuing.verify_token(&token, 1_000).is_ok());
    assert!(matches!(other.verify_token(&token, 1_000), Err(AuthError::InvalidToken)));
}

#[test]
fn truncated_token_rejected() {
    let mut service = AuthService::new(b"truncate-secret".to_vec());
    registered(&mut service, "cut@example.com", "password123", 1_000);
    let token = login(&service, "cut@example.com", "password123", 1_000);

    assert!(service.verify_token(&token, 1_000).is_ok());
    for cut in [token.len() - 1, token.len() / 2, 3, 0] {
        let truncated = &token[..cut];
        assert!(matches!(service.verify_token(truncated, 1_000), Err(AuthError::InvalidToken)));
    }
}

#[test]
fn issued_token_decodes_under_jsonwebtoken() {
    // far enough in the future for the crate's own expiry validation
    let now: u64 = 4_000_000_000;
    let mut service = AuthService::new(b"interop-secret".to_vec());
    let id = registered(&mut service, "interop@example.com", "password123", now);
    let token = login(&service, "interop@example.com", "password123", now);

    let validation = jsonwebtoken::Validation::new(jsonwebtoken::Algorithm::HS256);
    let decoded = jsonwebtoken::decode::<serde_json::Value>(
        &token,
        &jsonwebtoken::DecodingKey::from_secret(b"interop-secret"),
        &validation,
    )
    .unwrap();

    assert_eq!(decoded.claims["sub"].as_str(), Some(id.to_string().as_str()));
    assert_eq!(decoded.claims["iat"].as_u64(), Some(now));
    assert_eq!(decoded.claims["exp"].as_u64(), Some(now + DAY));
}

#[test]
fn listing_is_newest_first() {
    let mut service = PostService::new();
    for i in 0..15u64 {
        service
            .create_post(
                CreatePostDto { title: format!("t{}", i), content: format!("c{}", i) },
                1,
                i,
            )
            .unwrap();
    }

    let first = service.get_posts(1, 10).unwrap();
    let titles: Vec<&str> = first.iter().map(|p| p.title.as_str()).collect();
    assert_eq!(
        titles,
        ["t14", "t13", "t12", "t11", "t10", "t9", "t8", "t7", "t6", "t5"]
    );

    let second = service.get_posts(2, 10).unwrap();
    let titles: Vec<&str> = second.iter().map(|p| p.title.as_str()).collect();
    assert_eq!(titles, ["t4", "t3", "t2", "t1", "t0"]);

    assert_eq!(service.get_posts(3, 10).unwrap().len(), 0);
    assert_eq!(service.get_posts(1, 0).unwrap().len(), 0);
    assert!(matches!(service.get_posts(1, -1), Err(StoreError)));
    assert!(matches!(service.get_posts(-2, 10), Err(StoreError)));
}

#[test]
fn absent_read_stays_absent_across_unrelated_mutations() {
    let mut service = PostService::new();
    let a = service
        .create_post(CreatePostDto { title: "t".to_string(), content: "c".to_string() }, 1, 10)
        .unwrap();
    let missing_id = a.id + 100;

    assert!(service.get_post(missing_id).unwrap().is_none());

    service
        .update_post(
            a.id,
            UpdatePostDto { title: Some("t2".to_string()), content: None },
            1,
            20,
        )
        .unwrap()
        .unwrap();
    assert!(service.get_post(missing_id).unwrap().is_none());

    assert!(service.delete_post(a.id, 1).unwrap());
    assert!(service.get_post(missing_id).unwrap().is_none());
}

#[test]
fn end_to_end_scenario() {
    let mut auth = AuthService::new(b"scenario-secret".to_vec());
    let mut posts = PostService::new();
    let middleware = Auth.new_transform();

    let alice = auth
        .register(
            CreateUserDto {
                username: "alice".to_string(),
                email: "a@x.com".to_string(),
                password: "pw123456".to_string(),
            },
            100,
        )
        .unwrap();
    let bob = auth
        .register(
            CreateUserDto {
                username: "bob".to_string(),
                email: "b@x.com".to_string(),
                password: "pw654321".to_string(),
            },
            101,
        )
        .unwrap();

    let response = auth
        .login(
            LoginDto { email: "a@x.com".to_string(), password: "pw123456".to_string() },
            100,
        )
        .unwrap();
    assert!(!response.token.is_empty());

    let header = format!("Bearer {}", response.token);
    let outcome = middleware.call(&auth, Some(&header), 200);
    let caller = get_current_user(&outcome).unwrap();
    assert_eq!(caller, alice.id);

    let post = posts
        .create_post(
            CreatePostDto { title: "hello".to_string(), content: "first post".to_string() },
            caller,
            200,
        )
        .unwrap();
    assert_eq!(post.author_id, alice.id);

    let denied = posts
        .update_post(
            post.id,
            UpdatePostDto { title: Some("stolen".to_string()), content: None },
            bob.id,
            300,
        )
        .unwrap();
    assert!(denied.is_none());

    let updated = posts
        .update_post(
            post.id,
            UpdatePostDto { title: Some("hello again".to_string()), content: None },
            alice.id,
            300,
        )
        .unwrap()
        .unwrap();
    assert_eq!(updated.title, "hello again");
    assert_eq!(updated.content, "first post");
    assert_eq!(updated.created_at, 200);
    assert_eq!(updated.updated_at, 300);
    assert!(updated.updated_at > post.updated_at);
}

#[test]
fn clock_based_flow() {
    let mut service = AuthService::new(b"clock-secret".to_vec());
    let user = service
        .register_now(CreateUserDto {
            username: "clock".to_string(),
            email: "clock@example.com".to_string(),
            password: "password123".to_string(),
        })
        .unwrap();
    let response = service
        .login_now(LoginDto {
            email: "clock@example.com".to_string(),
            password: "password123".to_string(),
        })
        .unwrap();
    let claims = service.verify_token_now(&response.token).unwrap();
    assert_eq!(claims.sub, user.id.to_string());
    assert_eq!(claims.exp, claims.iat + DAY);
}

#[test]
fn each_failure_has_its_kind() {
    let mut service = AuthService::new(b"kinds-secret".to_vec());
    registered(&mut service, "kind@example.com", "password123", 1_000);

    let duplicate = service.register(
        CreateUserDto {
            username: "other".to_string(),
            email: "kind@example.com".to_string(),
            password: "password456".to_string(),
        },
        1_001,
    );
    assert!(matches!(duplicate, Err(AuthError::DuplicateEmail)));

    let unknown_email = service.login(
        LoginDto { email: "nobody@example.com".to_string(), password: "password123".to_string() },
        1_002,
    );
    assert!(matches!(unknown_email, Err(AuthError::InvalidCredentials)));

    let wrong_password = service.login(
        LoginDto { email: "kind@example.com".to_string(), password: "password456".to_string() },
        1_002,
    );
    assert!(matches!(wrong_password, Err(AuthError::InvalidCredentials)));

    let bad_token = service.verify_token("no dots at all", 1_002);
    assert!(matches!(bad_token, Err(AuthError::InvalidToken)));
}

#[test]
fn base64_round_trip() {
    let cases: [&[u8]; 5] = [b"", b"f", b"fo", b"foo", b"any carrier of bytes \x00\xff\x80"];
    for c in cases {
        let encoded = b64url_encode(c);
        let decoded = b64url_decode(&encoded).unwrap();
        assert_eq!(decoded, c);
    }
    assert_eq!(b64url_encode(b"foo"), b"Zm9v");
    assert_eq!(b64url_encode(b"fo"), b"Zm8");
}

#[test]
fn base64_rejects_non_canonical() {
    assert!(b64url_decode(b"A").is_none());
    assert!(b64url_decode(b"Zm9v=").is_none());
    assert!(b64url_decode(b"AC").is_none()); // nonzero fill bits
    assert!(b64url_decode(b"Zm.v").is_none());
}

#[test]
fn decimal_round_trip() {
    for n in [0u64, 1, 9, 10, 1_234_567_890, u64::MAX] {
        let digits = u64_to_digits(n);
        assert_eq!(parse_u64_digits(&digits), Some(n));
    }
    assert_eq!(u64_to_digits(1_050), b"1050");
    assert_eq!(parse_u64_digits(b""), None);
    assert_eq!(parse_u64_digits(b"12a4"), None);
    assert_eq!(parse_u64_digits(b"18446744073709551616"), None); // one past u64::MAX
}
