use pankat::cache::compute_hash;
use std::hash::Hasher;
use pankat::pipeline::parse_article;
use pankat::utils::{article_src_file_name_to_title, create_dst_file_name, position_to_line_and_col_number, PositionError};

#[test]
fn test_create_dst_file_name_flat() {
    let dst_file_name = create_dst_file_name("src/articles/test.mdwn", true);
    assert_eq!(dst_file_name, "test.html");
}

#[test]
fn test_create_dst_file_name() {
    let dst_file_name = create_dst_file_name("src/articles/test.mdwn", false);
    assert_eq!(dst_file_name, "src/articles/test.html");
}

#[test]
fn dst_file_name_strips_posts_and_spaces() {
    assert_eq!(create_dst_file_name("posts/my post.mdwn", false), "my_post.html");
    assert_eq!(create_dst_file_name("notes/.hidden", true), ".hidden.html");
    assert_eq!(create_dst_file_name("a.b/c", false), "a.b/c.html");
}

#[test]
fn title_from_file_name() {
    assert_eq!(article_src_file_name_to_title("posts/hello_big_world.mdwn"), "hello big world");
    assert_eq!(article_src_file_name_to_title("x.tar.gz"), "x.tar");
}

#[test]
fn line_and_column_of_byte_positions() {
    let text = "ab\ncä\nd";
    assert_eq!(position_to_line_and_col_number(text, 0), Ok((0, 0)));
    assert_eq!(position_to_line_and_col_number(text, 3), Ok((1, 0)));
    assert_eq!(position_to_line_and_col_number(text, 4), Ok((1, 1)));
    assert_eq!(position_to_line_and_col_number(text, 5), Err(PositionError::NotACharacterStart));
    assert_eq!(position_to_line_and_col_number(text, 7), Ok((2, 0)));
    assert_eq!(position_to_line_and_col_number(text, 8), Err(PositionError::NotACharacterStart));
}

#[test]
fn hash_is_hex_of_xxhash64() {
    let mut h = twox_hash::XxHash64::with_seed(0);
    h.write(b"hello");
    assert_eq!(compute_hash("hello"), format!("{:x}", h.finish()));
    assert_ne!(compute_hash("hello"), compute_hash("hello!"));
    assert_ne!(compute_hash("hello"), "hello");
}

#[test]
fn parse_article_builds_the_record() {
    let p = parse_article("posts/my_first.mdwn", false, "x [[!tag a b]] y");
    assert_eq!(p.article.src_file_name, "posts/my_first.mdwn");
    assert_eq!(p.article.dst_file_name, "my_first.html");
    assert_eq!(p.article.title, Some("my first".to_string()));
    assert_eq!(p.article.tags, Some(vec!["a".to_string(), "b".to_string()]));
    assert_eq!(p.article.anchorjs, Some(true));
    assert_eq!(p.text, "x  y");
    assert_eq!(p.hash, compute_hash("x  y"));
    let q = parse_article("posts/my_first.mdwn", true, "[[!title Given]]");
    assert_eq!(q.article.title, Some("Given".to_string()));
}

#[test]
fn trailing_separators_and_dot_components() {
    assert_eq!(article_src_file_name_to_title("a/b_c/"), "b c");
    assert_eq!(article_src_file_name_to_title("x/.."), "");
    assert_eq!(create_dst_file_name("a/b/", true), "b.html");
    assert_eq!(create_dst_file_name("a/b/", false), "a/b.html");
    assert_eq!(create_dst_file_name("a/b/.", true), "b.html");
    assert_eq!(create_dst_file_name("x/..", true), "");
    assert_eq!(create_dst_file_name("x/..", false), "x/..");
    assert_eq!(create_dst_file_name("posts", false), "");
}

#[test]
fn parsing_the_same_text_twice_gives_the_same_record() {
    let raw = "[[!tag a b]] [[!meta date=\"2001-01-01 01:01\"]] [[!nope]] text";
    let p = parse_article("posts/x.mdwn", false, raw);
    let q = parse_article("posts/x.mdwn", false, raw);
    assert_eq!(p.article, q.article);
    assert_eq!(p.hash, q.hash);
    assert_eq!(p.failures.len(), 1);
}
