use forum_core::models::post::{CreatePostDto, UpdatePostDto};
use forum_core::services::post_service::PostService;

fn dto(title: &str, content: &str) -> CreatePostDto {
    CreatePostDto { title: title.to_string(), content: content.to_string() }
}

#[test]
fn test_create_post() {
    let mut service = PostService::new();
    let author_id: u64 = 7;

    let post = service.create_post(dto("a title", "a body"), author_id, 1_000).unwrap();

    assert_eq!(post.title, "a title");
    assert_eq!(post.content, "a body");
    assert_eq!(post.author_id, author_id);
}

#[test]
fn test_get_post() {
    let mut service = PostService::new();
    let author_id: u64 = 7;

    let created = service.create_post(dto("a title", "a body"), author_id, 1_000).unwrap();

    let post = service.get_post(created.id).unwrap().unwrap();

    assert_eq!(post.id, created.id);
    assert_eq!(post.title, "a title");
    assert_eq!(post.content, "a body");
    assert_eq!(post.author_id, author_id);
}

#[test]
fn test_get_posts_pagination() {
    let mut service = PostService::new();
    let author_id: u64 = 7;

    for i in 0..15u64 {
        service
            .create_post(dto(&format!("title {}", i), &format!("content {}", i)), author_id, i)
            .unwrap();
    }

    let posts = service.get_posts(1, 10).unwrap();
    assert_eq!(posts.len(), 10);

    let posts = service.get_posts(2, 10).unwrap();
    assert_eq!(posts.len(), 5);
}

#[test]
fn test_update_post() {
    let mut service = PostService::new();
    let author_id: u64 = 7;

    let created = service.create_post(dto("old title", "old content"), author_id, 1_000).unwrap();

    let update = UpdatePostDto {
        title: Some("new title".to_string()),
        content: Some("new content".to_string()),
    };
    let updated_post = service.update_post(created.id, update, author_id, 2_000).unwrap().unwrap();

    assert_eq!(updated_post.id, created.id);
    assert_eq!(updated_post.title, "new title");
    assert_eq!(updated_post.content, "new content");
    assert_eq!(updated_post.author_id, author_id);
}

#[test]
fn test_delete_post() {
    let mut service = PostService::new();
    let author_id: u64 = 7;

    let created = service.create_post(dto("a title", "a body"), author_id, 1_000).unwrap();

    let result = service.delete_post(created.id, author_id).unwrap();
    assert!(result);

    let post = service.get_post(created.id).unwrap();
    assert!(post.is_none());
}

#[test]
fn test_delete_post_wrong_author() {
    let mut service = PostService::new();
    let author_id: u64 = 7;
    let wrong_author_id: u64 = 8;

    let created = service.create_post(dto("a title", "a body"), author_id, 1_000).unwrap();

    let result = service.delete_post(created.id, wrong_author_id).unwrap();
    assert!(!result);

    let post = service.get_post(created.id).unwrap();
    assert!(post.is_some());
}
