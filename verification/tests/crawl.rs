use docsearch_gen::engine::CrawlEngine;
use docsearch_gen::scrape::{render_lines, scrape_page, selectors_compile};
use docsearch_gen::urls::{normalize, CrawlError, CrawlUrl};
use docsearch_gen::visited::VisitedSet;

fn engine(domain: &str) -> CrawlEngine {
    CrawlEngine::new(&domain.to_string()).expect("the fixed selectors compile")
}

#[test]
fn selectors_are_valid() {
    assert!(selectors_compile());
}

#[test]
fn seed_parses_and_strips_fragment() {
    let u = CrawlUrl::from_absolute("https://neovim.io/doc/user/intro.html#intro").unwrap();
    assert_eq!(u.text().as_str(), "https://neovim.io/doc/user/intro.html");
    assert_eq!(u.host().as_str(), "neovim.io");
}

#[test]
fn seed_rejects_relative_and_garbage() {
    assert!(matches!(
        CrawlUrl::from_absolute("doc/user"),
        Err(CrawlError::MalformedUrl)
    ));
    assert!(matches!(
        CrawlUrl::from_absolute("https://neovim .io/"),
        Err(CrawlError::MalformedUrl)
    ));
}

#[test]
fn normalize_resolves_relative_references() {
    let base = CrawlUrl::from_absolute("https://neovim.io/doc/user/intro.html").unwrap();
    let u = normalize(&base, "usr_01.html").unwrap();
    assert_eq!(u.text().as_str(), "https://neovim.io/doc/user/usr_01.html");
    let up = normalize(&base, "../faq.html").unwrap();
    assert_eq!(up.text().as_str(), "https://neovim.io/doc/faq.html");
}

#[test]
fn normalize_is_idempotent() {
    let base = CrawlUrl::from_absolute("https://neovim.io/doc/user/").unwrap();
    let once = normalize(&base, "page2.html#section").unwrap();
    let other_base = CrawlUrl::from_absolute("https://example.org/elsewhere/").unwrap();
    let twice = normalize(&other_base, once.text().as_str()).unwrap();
    assert_eq!(twice.text(), once.text());
    assert_eq!(twice.host(), once.host());
}

#[test]
fn normalize_strips_fragment_and_keeps_prefix() {
    let base = CrawlUrl::from_absolute("https://neovim.io/").unwrap();
    let raw = "https://neovim.io/doc/user/intro.html#intro-details";
    let u = normalize(&base, raw).unwrap();
    assert_eq!(u.text().as_str(), "https://neovim.io/doc/user/intro.html");
    assert_eq!(format!("{}#intro-details", u.text()), raw);
}

#[test]
fn normalize_rejects_unparseable() {
    let base = CrawlUrl::from_absolute("https://neovim.io/doc/user/").unwrap();
    assert!(matches!(
        normalize(&base, "https://neovim .io/x"),
        Err(CrawlError::MalformedUrl)
    ));
}

#[test]
fn visited_set_inserts_at_most_once() {
    let mut v = VisitedSet::new();
    let url = "https://neovim.io/doc/user/intro.html".to_string();
    assert!(!v.contains(&url));
    assert!(v.check_and_insert(&url));
    assert!(v.contains(&url));
    assert!(!v.check_and_insert(&url));
    assert_eq!(v.len(), 1);
    let other = "https://neovim.io/doc/user/usr_01.html".to_string();
    assert!(v.check_and_insert(&other));
    assert_eq!(v.len(), 2);
}

#[test]
fn tag_extraction_builds_fragment_urls() {
    let resolved = CrawlUrl::from_absolute("https://neovim.io/doc/user/intro.html").unwrap();
    let mut v = VisitedSet::new();
    let html = r#"<html><body>
        <span class="help-tag">intro</span>
        <a class="help-tag-right" name="x">intro-usage</a>
        <p class="not-a-tag">ignored</p>
    </body></html>"#;
    let (res, links) = scrape_page(&resolved, html, &"neovim.io".to_string(), &mut v).unwrap();
    let tags = res.tags();
    assert!(tags
        .iter()
        .any(|t| t == "https://neovim.io/doc/user/intro.html#intro"));
    assert!(tags
        .iter()
        .any(|t| t == "https://neovim.io/doc/user/intro.html#intro-usage"));
    assert_eq!(tags.len(), 2);
    assert!(links.is_empty());
}

#[test]
fn tag_text_is_percent_encoded() {
    let resolved = CrawlUrl::from_absolute("https://neovim.io/doc/user/map.html").unwrap();
    let mut v = VisitedSet::new();
    let html = r#"<i class="help-tag">:map local</i>"#;
    let (res, _) = scrape_page(&resolved, html, &"neovim.io".to_string(), &mut v).unwrap();
    assert_eq!(
        res.tags()[0].as_str(),
        "https://neovim.io/doc/user/map.html#%3Amap%20local"
    );
}

#[test]
fn duplicate_tag_text_collapses() {
    let resolved = CrawlUrl::from_absolute("https://neovim.io/doc/user/intro.html").unwrap();
    let mut v = VisitedSet::new();
    let html = r#"<b class="help-tag">nvim</b><b class="help-tag">nvim</b>"#;
    let (res, _) = scrape_page(&resolved, html, &"neovim.io".to_string(), &mut v).unwrap();
    assert_eq!(res.tags().len(), 1);
    assert_eq!(
        res.tags()[0].as_str(),
        "https://neovim.io/doc/user/intro.html#nvim"
    );
}

#[test]
fn link_dedup_within_and_across_pages() {
    let resolved = CrawlUrl::from_absolute("https://neovim.io/doc/user/intro.html").unwrap();
    let domain = "neovim.io".to_string();
    let mut v = VisitedSet::new();
    let html = r#"<a href="page2.html#section">one</a><a href="page2.html#section">two</a>"#;
    let (_, links) = scrape_page(&resolved, html, &domain, &mut v).unwrap();
    assert_eq!(links.len(), 1);
    assert_eq!(
        links[0].text().as_str(),
        "https://neovim.io/doc/user/page2.html"
    );
    // A later page linking to the same normalized URL discovers nothing new.
    let later = CrawlUrl::from_absolute("https://neovim.io/doc/user/other.html").unwrap();
    let html2 = r#"<a href="page2.html#fn">again</a>"#;
    let (_, links2) = scrape_page(&later, html2, &domain, &mut v).unwrap();
    assert!(links2.is_empty());
}

#[test]
fn foreign_and_malformed_hrefs_are_skipped() {
    let resolved = CrawlUrl::from_absolute("https://neovim.io/doc/user/intro.html").unwrap();
    let mut v = VisitedSet::new();
    let html = r#"
        <a href="mailto:foo@bar.com">mail</a>
        <a href="https://neovim .io/broken">broken</a>
        <a href="https://example.org/elsewhere">foreign</a>
        <a href="usr_01.html">good</a>
    "#;
    let (res, links) = scrape_page(&resolved, html, &"neovim.io".to_string(), &mut v).unwrap();
    assert!(res.tags().is_empty());
    assert_eq!(links.len(), 1);
    assert_eq!(
        links[0].text().as_str(),
        "https://neovim.io/doc/user/usr_01.html"
    );
    assert!(!v.contains(&"https://example.org/elsewhere".to_string()));
}

#[test]
fn engine_enqueues_seed_once_and_only_same_domain() {
    let mut e = engine("neovim.io");
    assert_eq!(e.visit("https://neovim.io/doc/user"), Ok(true));
    assert_eq!(e.visit("https://neovim.io/doc/user"), Ok(false));
    assert_eq!(e.visit("https://example.org/doc"), Ok(false));
    assert_eq!(e.visit("doc/user"), Err(CrawlError::MalformedUrl));
    let first = e.next_url().expect("the seed is pending");
    assert_eq!(first.text().as_str(), "https://neovim.io/doc/user");
    assert_eq!(first.host().as_str(), "neovim.io");
    assert!(e.next_url().is_none());
}

#[test]
fn engine_uses_resolved_url_after_redirect() {
    let mut e = engine("neovim.io");
    e.visit("https://neovim.io/doc/user/old.html").unwrap();
    let requested = e.next_url().unwrap();
    assert_eq!(requested.text().as_str(), "https://neovim.io/doc/user/old.html");
    // The fetch was redirected: the page came back from new.html.
    let html = r#"<span class="help-tag">intro</span><a href="next.html">n</a>"#;
    let res = e
        .on_page_fetched("https://neovim.io/doc/user/new.html", html)
        .unwrap();
    assert_eq!(
        res.tags()[0].as_str(),
        "https://neovim.io/doc/user/new.html#intro"
    );
    let next = e.next_url().unwrap();
    assert_eq!(next.text().as_str(), "https://neovim.io/doc/user/next.html");
}

#[test]
fn engine_rejects_unparseable_resolved_url() {
    let mut e = engine("neovim.io");
    assert!(matches!(
        e.on_page_fetched("not an absolute url", "<p></p>"),
        Err(CrawlError::MalformedUrl)
    ));
}

#[test]
fn crawl_terminates_on_cyclic_site() {
    // a -> b -> a, with a self-link; after dedup the crawl drains.
    let mut e = engine("neovim.io");
    e.visit("https://neovim.io/a.html").unwrap();
    let mut fetched: Vec<String> = Vec::new();
    let mut steps = 0usize;
    while let Some(u) = e.next_url() {
        steps += 1;
        assert!(steps <= 2, "the crawl must visit each page at most once");
        assert_eq!(u.host().as_str(), "neovim.io");
        fetched.push(u.text().clone());
        let html = if u.text().ends_with("/a.html") {
            r#"<b class="help-tag">a</b><a href="b.html">b</a><a href="a.html">self</a>"#
        } else {
            r#"<b class="help-tag">b</b><a href="a.html">back</a>"#
        };
        e.on_page_fetched(u.text().as_str(), html).unwrap();
    }
    assert_eq!(
        fetched,
        vec![
            "https://neovim.io/a.html".to_string(),
            "https://neovim.io/b.html".to_string()
        ]
    );
    assert_eq!(e.visited_count(), 2);
    assert_eq!(e.pending_count(), 0);
}

#[test]
fn render_lines_is_one_url_per_line() {
    let resolved = CrawlUrl::from_absolute("https://neovim.io/doc/user/intro.html").unwrap();
    let mut v = VisitedSet::new();
    let html = r#"<b class="help-tag">one</b><b class="help-tag-right">two</b>"#;
    let (res, _) = scrape_page(&resolved, html, &"neovim.io".to_string(), &mut v).unwrap();
    let out = render_lines(&res);
    assert_eq!(
        out,
        "https://neovim.io/doc/user/intro.html#one\nhttps://neovim.io/doc/user/intro.html#two\n"
    );
}

#[test]
fn empty_page_yields_empty_result() {
    let resolved = CrawlUrl::from_absolute("https://neovim.io/empty.html").unwrap();
    let mut v = VisitedSet::new();
    let (res, links) = scrape_page(&resolved, "", &"neovim.io".to_string(), &mut v).unwrap();
    assert!(res.tags().is_empty());
    assert!(links.is_empty());
    assert_eq!(render_lines(&res), "");
}
