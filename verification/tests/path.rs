use aw_man::manager::files::{
    format_lines, image_formats, is_archive_path, is_gif, is_image_crate_supported, is_jxl,
    is_pixbuf_extension, is_png, is_rar_path, is_supported_page_extension, is_video_extension,
    is_webp, join, usable_pixbuf_extensions,
};
use aw_man::number::{decimal_text, parse_u32, parse_usize, ParseNumberError};
use aw_man::path::{
    extension_of, file_name_of, join_path, parent_of, remove_common_path_prefix, split_path,
};

fn chars(s: &str) -> Vec<char> {
    s.chars().collect()
}

fn strings(v: &[&str]) -> Vec<String> {
    v.iter().map(|s| s.to_string()).collect()
}

fn ext(s: &str) -> Option<String> {
    extension_of(&chars(s)).map(|e| e.iter().collect())
}

#[test]
fn file_names() {
    assert_eq!(file_name_of("/a/b.png"), Some("b.png".to_string()));
    assert_eq!(file_name_of("b.png"), Some("b.png".to_string()));
    assert_eq!(file_name_of("/a/b/"), Some("b".to_string()));
    assert_eq!(file_name_of("/"), None);
    assert_eq!(file_name_of(".."), None);
    assert_eq!(file_name_of("/a/.."), None);
}

#[test]
fn extensions() {
    assert_eq!(ext("/a/b.png"), Some("png".to_string()));
    assert_eq!(ext("b.tar.gz"), Some("gz".to_string()));
    assert_eq!(ext("b."), Some("".to_string()));
    assert_eq!(ext(".hidden"), None);
    assert_eq!(ext("b"), None);
    assert_eq!(ext("a.b/c"), None);
}

#[test]
fn parents() {
    assert_eq!(parent_of("/a/b"), Some("/a".to_string()));
    assert_eq!(parent_of("/a"), Some("/".to_string()));
    assert_eq!(parent_of("a"), Some("".to_string()));
    assert_eq!(parent_of("/"), None);
    assert_eq!(parent_of(""), None);
}

#[test]
fn paths_agree_with_std() {
    for p in ["/a/b.png", "a/b/c", "/", "", "a//b", "./a", "a/./b.x", "/a/../b", "x.tar.gz", "a/b/"] {
        let std_path = std::path::Path::new(p);
        assert_eq!(
            file_name_of(p),
            std_path.file_name().map(|n| n.to_str().unwrap().to_string()),
            "{p}"
        );
        assert_eq!(ext(p), std_path.extension().map(|n| n.to_str().unwrap().to_string()), "{p}");
        assert_eq!(
            parent_of(p),
            std_path.parent().map(|n| n.to_str().unwrap().to_string()),
            "{p}"
        );
        let spans = split_path(&chars(p));
        assert_eq!(spans.spans.len(), std_path.components().count(), "{p}");
    }
}

#[test]
fn joined_paths() {
    assert_eq!(join_path("/tmp/x", "1.png"), "/tmp/x/1.png");
    assert_eq!(join_path("/", "a"), "/a");
    assert_eq!(join_path("", "a"), "a");
    assert_eq!(join_path("/tmp/", "a"), "/tmp/a");
}

#[test]
fn common_directories_are_left_out() {
    let (names, prefix) =
        remove_common_path_prefix(&strings(&["a/b/1.png", "a/b/2.png", "a/b/c/3.png"]));
    assert_eq!(names, strings(&["1.png", "2.png", "c/3.png"]));
    assert_eq!(prefix, Some("a/b".to_string()));
}

#[test]
fn nothing_common_is_left_out() {
    let (names, prefix) = remove_common_path_prefix(&strings(&["a/1.png", "2.png"]));
    assert_eq!(names, strings(&["a/1.png", "2.png"]));
    assert_eq!(prefix, Some("".to_string()));
    let (names, prefix) = remove_common_path_prefix(&strings(&[]));
    assert_eq!(names, strings(&[]));
    assert_eq!(prefix, None);
}

#[test]
fn a_single_file_keeps_its_name() {
    let (names, prefix) = remove_common_path_prefix(&strings(&["a/b/1.png"]));
    assert_eq!(names, strings(&["1.png"]));
    assert_eq!(prefix, Some("a/b".to_string()));
}

#[test]
fn kinds_of_files() {
    assert!(is_gif("a.GIF") && !is_gif("gif"));
    assert!(is_png("a.png") && is_png("a.apng"));
    assert!(is_webp("a.webp") && is_jxl("a.JXL"));
    assert!(is_video_extension("a.webm") && !is_video_extension("a.mp4"));
    assert!(is_image_crate_supported("x.tiff") && !is_image_crate_supported("x.jxl"));
    assert!(is_archive_path("x.CBZ") && is_archive_path("x.7z") && !is_archive_path("x.png"));
    assert!(is_rar_path("x.cbr") && is_rar_path("x.rar") && !is_rar_path("x.zip"));
}

#[test]
fn pixbuf_adds_formats() {
    let pixbuf = strings(&["svg", "heif"]);
    assert!(is_pixbuf_extension("a.SVG", &pixbuf));
    assert!(!is_pixbuf_extension("a.png", &pixbuf));
    assert!(is_supported_page_extension("a.heif", &pixbuf));
    assert!(is_supported_page_extension("a.jxl", &pixbuf));
    assert!(is_supported_page_extension("a.webm", &pixbuf));
    assert!(!is_supported_page_extension("a.zip", &pixbuf));
    assert!(!is_supported_page_extension("a", &pixbuf));
}

#[test]
fn extensions_that_are_no_pages_are_dropped() {
    let all = strings(&["svg", "jxl", "svg.gz", "ico"]);
    assert_eq!(usable_pixbuf_extensions(all), strings(&["svg", "ico"]));
}

#[test]
fn formats_are_listed() {
    let (images, animated, video, archives) = format_lines(&strings(&["svg"]));
    assert!(images.contains("jpg") && images.contains("svg"));
    assert!(animated.contains("gif"));
    assert!(video.contains("webm"));
    assert!(archives.contains("cbz"));
    let all = image_formats(&strings(&["svg", "png"]));
    assert_eq!(all.iter().filter(|f| *f == "png").count(), 1);
    assert_eq!(all.iter().filter(|f| *f == "svg").count(), 1);
}

#[test]
fn texts_are_joined() {
    assert_eq!(join(&strings(&["a", "b", "c"]), ", "), "a, b, c");
    assert_eq!(join(&strings(&["a"]), ", "), "a");
    assert_eq!(join(&strings(&[]), ", "), "");
}

#[test]
fn numbers_are_read_as_std_reads_them() {
    for s in ["", "0", "007", "4294967295", "4294967296", "+5", "+", "-", "-1", "1a", "1 ", "99999999999"] {
        let r = parse_u32(&chars(s));
        match s.parse::<u32>() {
            Ok(n) => assert_eq!(r, Ok(n), "{s}"),
            Err(e) => assert_eq!(r.unwrap_err().message(), e.to_string(), "{s}"),
        }
        let r = parse_usize(&chars(s));
        match s.parse::<usize>() {
            Ok(n) => assert_eq!(r, Ok(n), "{s}"),
            Err(e) => assert_eq!(r.unwrap_err().message(), e.to_string(), "{s}"),
        }
    }
}

#[test]
fn each_way_a_number_can_be_wrong() {
    assert_eq!(parse_u32(&chars("")), Err(ParseNumberError::Empty));
    assert_eq!(parse_u32(&chars("x")), Err(ParseNumberError::InvalidDigit));
    assert_eq!(parse_u32(&chars("4294967296")), Err(ParseNumberError::TooLarge));
}

#[test]
fn numbers_are_written() {
    assert_eq!(decimal_text(0), "0");
    assert_eq!(decimal_text(u64::MAX), u64::MAX.to_string());
}
