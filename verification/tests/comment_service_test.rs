use forum_core::models::comment::{CreateCommentDto, UpdateCommentDto};
use forum_core::services::comment_service::CommentService;

fn create_test_comment(
    service: &mut CommentService,
    post_id: u64,
    author_id: u64,
    parent_id: Option<u64>,
    now: u64,
) -> u64 {
    let dto = CreateCommentDto { content: format!("comment at {}", now), parent_id };
    let comment = service.create_comment(post_id, author_id, dto, now).unwrap();
    comment.id
}

#[test]
fn test_create_comment() {
    let mut service = CommentService::new();
    let post_id: u64 = 3;
    let author_id: u64 = 7;

    let dto = CreateCommentDto { content: "a comment".to_string(), parent_id: None };

    let comment = service.create_comment(post_id, author_id, dto, 1_000).unwrap();

    assert_eq!(comment.content, "a comment");
    assert_eq!(comment.post_id, post_id);
    assert_eq!(comment.author_id, author_id);
    assert_eq!(comment.parent_id, None);
}

#[test]
fn test_create_reply() {
    let mut service = CommentService::new();
    let post_id: u64 = 3;
    let author_id: u64 = 7;

    let parent_id = create_test_comment(&mut service, post_id, author_id, None, 1_000);

    let dto = CreateCommentDto { content: "a reply".to_string(), parent_id: Some(parent_id) };

    let reply = service.create_comment(post_id, author_id, dto, 1_001).unwrap();

    assert_eq!(reply.content, "a reply");
    assert_eq!(reply.post_id, post_id);
    assert_eq!(reply.author_id, author_id);
    assert_eq!(reply.parent_id, Some(parent_id));
}

#[test]
fn test_get_post_comments() {
    let mut service = CommentService::new();
    let post_id: u64 = 3;
    let author_id: u64 = 7;

    for i in 0..15u64 {
        create_test_comment(&mut service, post_id, author_id, None, i);
    }

    let comments = service.get_post_comments(post_id, 1, 10).unwrap();
    assert_eq!(comments.len(), 10);

    let comments = service.get_post_comments(post_id, 2, 10).unwrap();
    assert_eq!(comments.len(), 5);
}

#[test]
fn test_get_replies() {
    let mut service = CommentService::new();
    let post_id: u64 = 3;
    let author_id: u64 = 7;

    let parent_id = create_test_comment(&mut service, post_id, author_id, None, 1_000);

    for i in 0..5u64 {
        create_test_comment(&mut service, post_id, author_id, Some(parent_id), 1_001 + i);
    }

    let replies = service.get_replies(parent_id, 1, 10).unwrap();
    assert_eq!(replies.len(), 5);
    for reply in replies {
        assert_eq!(reply.parent_id, Some(parent_id));
    }
}

#[test]
fn test_update_comment() {
    let mut service = CommentService::new();
    let post_id: u64 = 3;
    let author_id: u64 = 7;

    let comment_id = create_test_comment(&mut service, post_id, author_id, None, 1_000);

    let dto = UpdateCommentDto { content: "new content".to_string() };

    let updated_comment = service.update_comment(comment_id, author_id, dto, 2_000).unwrap().unwrap();

    assert_eq!(updated_comment.id, comment_id);
    assert_eq!(updated_comment.content, "new content");
}

#[test]
fn test_delete_comment() {
    let mut service = CommentService::new();
    let post_id: u64 = 3;
    let author_id: u64 = 7;

    let comment_id = create_test_comment(&mut service, post_id, author_id, None, 1_000);

    let result = service.delete_comment(comment_id, author_id).unwrap();
    assert!(result);

    let comment = service.get_comment(comment_id).unwrap();
    assert!(comment.is_none());
}

#[test]
fn reply_parent_must_exist() {
    let mut service = CommentService::new();
    let dto = CreateCommentDto { content: "orphan".to_string(), parent_id: Some(999) };
    let result = service.create_comment(3, 7, dto, 1_000);
    assert!(result.is_err());
}

#[test]
fn reply_to_reply_rejected() {
    let mut service = CommentService::new();
    let top = create_test_comment(&mut service, 3, 7, None, 1_000);
    let reply = create_test_comment(&mut service, 3, 7, Some(top), 1_001);

    let dto = CreateCommentDto { content: "too deep".to_string(), parent_id: Some(reply) };
    let result = service.create_comment(3, 7, dto, 1_002);
    assert!(result.is_err());

    // the reply itself went in one level below its top-level parent
    let stored = service.get_comment(reply).unwrap().unwrap();
    assert_eq!(stored.parent_id, Some(top));
}

#[test]
fn test_delete_comment_wrong_author() {
    let mut service = CommentService::new();
    let post_id: u64 = 3;
    let author_id: u64 = 7;
    let wrong_author_id: u64 = 8;

    let comment_id = create_test_comment(&mut service, post_id, author_id, None, 1_000);

    let result = service.delete_comment(comment_id, wrong_author_id).unwrap();
    assert!(!result);

    let comment = service.get_comment(comment_id).unwrap();
    assert!(comment.is_some());
}
