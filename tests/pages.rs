use blog::article::Metadata;
use blog::date::Date;
use blog::diag::Diagnostics;
use blog::output::{compile_home, compile_tag, home_order, output_article, output_articles, tag_page_order};
use blog::render::{escape_html, render_tag_page};
use blog::site::{all_tags, article_url, sort_newest_first, tag_output_path, tag_posts, tag_url};

fn meta(title: &str, tags: &[&str], date: Option<(i16, i8, i8)>) -> Metadata {
    Metadata {
        tags: tags.iter().map(|t| t.to_string()).collect(),
        title: title.to_string(),
        publish_date: date.map(|(y, m, d)| Date::new(y, m, d).unwrap()),
    }
}

fn tagged_articles() -> Vec<Metadata> {
    vec![
        meta("first", &["go"], Some((2023, 1, 5))),
        meta("second", &["go"], Some((2024, 3, 1))),
        meta("third", &["go", "rust"], Some((2023, 11, 20))),
    ]
}

#[test]
fn go_tag_lists_all_three_newest_first() {
    let a = tagged_articles();
    assert_eq!(tag_page_order(&a, "go"), vec![1, 2, 0]);
}

#[test]
fn rust_tag_lists_one() {
    let a = tagged_articles();
    assert_eq!(tag_page_order(&a, "rust"), vec![2]);
    assert_eq!(tag_posts(&a, "rust"), vec![2]);
    assert_eq!(tag_posts(&a, "go"), vec![0, 1, 2]);
    assert_eq!(tag_posts(&a, "python"), Vec::<usize>::new());
}

#[test]
fn tag_page_html_in_order() {
    let a = tagged_articles();
    let urls = vec!["/articles/a.html".to_string(), "/articles/b.html".to_string(), "/articles/c.html".to_string()];
    let html = compile_tag("go", &a, &urls);
    assert_eq!(
        html,
        "<h1>go</h1>\n<ul>\n<li><a href=\"/articles/b.html\">second</a></li>\n<li><a href=\"/articles/c.html\">third</a></li>\n<li><a href=\"/articles/a.html\">first</a></li>\n</ul>\n"
    );
    let rust = compile_tag("rust", &a, &urls);
    assert_eq!(rust, "<h1>rust</h1>\n<ul>\n<li><a href=\"/articles/c.html\">third</a></li>\n</ul>\n");
}

#[test]
fn home_lists_undated_last() {
    let a = vec![
        meta("undated", &[], None),
        meta("old", &[], Some((2020, 2, 29))),
        meta("new", &[], Some((2021, 1, 1))),
    ];
    assert_eq!(home_order(&a), vec![2, 1, 0]);
    let urls = vec!["/u".to_string(), "/o".to_string(), "/n".to_string()];
    let html = compile_home(&a, &urls);
    assert!(html.starts_with("<h1>Articles</h1>\n<ul>\n<li><a href=\"/n\">new</a></li>"));
}

#[test]
fn all_tags_once_each_in_first_order() {
    let a = tagged_articles();
    assert_eq!(all_tags(&a), vec!["go".to_string(), "rust".to_string()]);
    assert_eq!(all_tags(&Vec::new()), Vec::<String>::new());
}

#[test]
fn sort_keeps_every_item_and_ties_in_order() {
    let dates = vec![Some(Date::new(2020, 1, 1).unwrap()), None, Some(Date::new(2022, 6, 30).unwrap())];
    let r = sort_newest_first(&vec![0, 1, 2], &dates);
    assert_eq!(r, vec![2, 0, 1]);
    let same = vec![Some(Date::new(2020, 1, 1).unwrap()); 3];
    assert_eq!(sort_newest_first(&vec![0, 1, 2], &same), vec![0, 1, 2]);
}

#[test]
fn urls_and_paths() {
    assert_eq!(article_url("/site/articles/hello.md"), Some("/articles/hello.html".to_string()));
    assert_eq!(article_url("/site/articles/"), None);
    assert_eq!(tag_url("go"), "/tags/go.html");
    assert_eq!(tag_output_path("./output/tags", "go"), "./output/tags/go.html");
}

#[test]
fn escaping_of_inserted_text() {
    assert_eq!(escape_html("a<b>&\"'"), "a&lt;b&gt;&amp;&#34;&#39;");
    let html = render_tag_page("c++ & co", &vec![(meta("<x>", &[], None), "/a?b=1&c=2".to_string())]);
    assert_eq!(html, "<h1>c++ &amp; co</h1>\n<ul>\n<li><a href=\"/a?b=1&amp;c=2\">&lt;x&gt;</a></li>\n</ul>\n");
}

#[test]
fn malformed_article_gives_one_diagnostic_and_no_page() {
    let mut log = Diagnostics::new();
    let inputs = vec![
        "/site/articles/a.md".to_string(),
        "/site/articles/b.md".to_string(),
        "/site/articles/broken.md".to_string(),
        "/site/articles/c.md".to_string(),
    ];
    let compiled = vec![
        Ok("<p>a</p>".to_string()),
        Ok("<p>b</p>".to_string()),
        Err("could not parse front matter".to_string()),
        Ok("<p>c</p>".to_string()),
    ];
    let pages = output_articles(&mut log, &inputs, compiled, "./output/articles");
    assert_eq!(
        pages,
        vec![
            ("./output/articles/a.html".to_string(), "<p>a</p>".to_string()),
            ("./output/articles/b.html".to_string(), "<p>b</p>".to_string()),
            ("./output/articles/c.html".to_string(), "<p>c</p>".to_string()),
        ]
    );
    assert_eq!(log.len(), 1);
    assert_eq!(log.message(0), "Error in file broken.md: could not parse front matter\n");
}

#[test]
fn article_without_file_name_is_reported() {
    let mut log = Diagnostics::new();
    let r = output_article(&mut log, "/site/articles/..", "./output/articles", Ok("x".to_string()));
    assert!(r.is_none());
    assert_eq!(log.message(0), "Error in file <unknown>: the path names no file\n");
}
