use get_training_data::bloom::{Config, Filter};
use get_training_data::crawl::{add_url, process_page, seed_links, worker_step, ProcessError, WorkerStep};
use get_training_data::extract::{
    apply_label_map, get_links, get_training_input, get_training_output, Link, Node, Selected,
};
use get_training_data::globals::{LabelMap, LabelMaps, PathExcludeSettings, Rules, Selector, SelectorValue};
use std::collections::BTreeMap;

fn el(name: &str, children: Vec<Node>) -> Node {
    Node::Element { name: name.to_string(), children }
}

fn text(t: &str) -> Node {
    Node::Text(t.to_string())
}

fn doc(body: Vec<Node>) -> Node {
    Node::Other { children: vec![el("html", vec![el("head", vec![]), el("body", body)])] }
}

fn label(name: &str, selector: &str, list: Option<bool>) -> Selector {
    Selector { list, name: name.to_string(), selector: selector.to_string() }
}

fn rules(exclude: Option<(&str, bool)>, maps: Vec<(&str, Vec<Selector>)>) -> Rules {
    let m = LabelMaps {
        domain: "d".to_string(),
        path_exclude: exclude.map(|(re, invert)| PathExcludeSettings { re: re.to_string(), invert }),
        headers: None,
        maps: maps
            .into_iter()
            .map(|(re, labels)| LabelMap {
                path_match_re: re.to_string(),
                abs_root_url: "https://d/".to_string(),
                labels,
            })
            .collect(),
    };
    Rules::compile(m).ok().unwrap()
}

fn hrefs(hs: &[&str]) -> Vec<String> {
    hs.iter().map(|h| h.to_string()).collect()
}

fn link_strs(ls: &[Link]) -> Vec<String> {
    ls.iter().map(|l| l.href.clone()).collect()
}

#[test]
fn training_input_wraps_direct_text() {
    let page = doc(vec![el("div", vec![text("hello "), el("span", vec![text("world")])])]);
    assert_eq!(get_training_input(&page).unwrap(), "<div>hello<span>world</span></div>");
}

#[test]
fn training_input_skips_scripts_and_replaces_nbsp() {
    let page = doc(vec![el(
        "p",
        vec![
            text("  a\u{a0}b  "),
            el("script", vec![text("var x = 1;")]),
            el("style", vec![text("p {}")]),
            el("noscript", vec![text("no")]),
            el("b", vec![el("i", vec![text("c")])]),
        ],
    )]);
    assert_eq!(get_training_input(&page).unwrap(), "<p>a b<i>c</i></p>");
}

#[test]
fn training_input_of_empty_page_is_none() {
    assert!(get_training_input(&doc(vec![])).is_none());
    assert!(get_training_input(&doc(vec![el("div", vec![text("  \n ")])])).is_none());
}

#[test]
fn training_input_of_plain_text_is_stable() {
    let first = get_training_input(&Node::Other { children: vec![text(" x\u{a0}y ")] }).unwrap();
    assert_eq!(first, "x y");
    let again = get_training_input(&Node::Other { children: vec![text(&first)] }).unwrap();
    assert_eq!(again, first);
}

#[test]
fn fragment_links_are_dropped() {
    let r = rules(None, vec![]);
    assert!(get_links(&hrefs(&["#section"]), "https", &r).is_empty());
}

#[test]
fn root_relative_links_resolve() {
    let r = rules(None, vec![]);
    let ls = get_links(&hrefs(&["/x"]), "https", &r);
    assert_eq!(link_strs(&ls), vec!["https://d/x".to_string()]);
    assert_eq!(ls[0].path, "/x");
    assert_eq!(ls[0].domain.as_deref(), Some("d"));
}

#[test]
fn foreign_hosts_are_dropped() {
    let r = rules(None, vec![]);
    let ls = get_links(&hrefs(&["https://other.org/a", "https://d/b", "not a url"]), "https", &r);
    assert_eq!(link_strs(&ls), vec!["https://d/b".to_string()]);
}

#[test]
fn inverted_exclude_keeps_matching_paths() {
    let r = rules(Some(("^article/", true)), vec![]);
    let ls = get_links(&hrefs(&["/article/1", "/about", "https://d/article/2"]), "http", &r);
    assert_eq!(link_strs(&ls), vec!["http://d/article/1".to_string(), "https://d/article/2".to_string()]);
}

#[test]
fn exclude_drops_matching_paths() {
    let r = rules(Some(("^article/", false)), vec![]);
    let ls = get_links(&hrefs(&["/article/1", "/about"]), "https", &r);
    assert_eq!(link_strs(&ls), vec!["https://d/about".to_string()]);
}

fn texts(ts: &[&str]) -> Selected {
    Selected::Texts(ts.iter().map(|t| t.to_string()).collect())
}

#[test]
fn label_values_single_and_list() {
    let r = rules(None, vec![("", vec![label("t", "h1", None), label("tags", "li", Some(true)), label("bad", "[", None), label("none", "h9", Some(false))])]);
    let out = apply_label_map(&r.rules[0], &vec![texts(&["T1", "T2"]), texts(&["a", "b"]), Selected::Invalid, texts(&[])]);
    assert_eq!(
        out,
        vec![
            ("t".to_string(), SelectorValue::Str("T1".to_string())),
            ("tags".to_string(), SelectorValue::Arr(vec!["a".to_string(), "b".to_string()])),
        ]
    );
}

#[test]
fn later_rules_win() {
    let r = rules(None, vec![
        ("^item/", vec![label("title", "h1", None), label("a", "p", None)]),
        ("^other/", vec![label("title", "h3", None)]),
        ("^item/\\d+", vec![label("title", "h2", None)]),
    ]);
    let sels = vec![
        vec![texts(&["first"]), texts(&["pa"])],
        vec![texts(&["never"])],
        vec![texts(&["second"])],
    ];
    let out = get_training_output(&r, "/item/12", &sels);
    let map: BTreeMap<String, SelectorValue> = out.into_iter().collect();
    assert_eq!(map.get("title"), Some(&SelectorValue::Str("second".to_string())));
    assert_eq!(map.get("a"), Some(&SelectorValue::Str("pa".to_string())));
    assert_eq!(map.len(), 2);
    assert!(get_training_output(&r, "/nothing", &sels).is_empty());
}

#[test]
fn bad_regex_is_refused() {
    let m = LabelMaps { domain: "d".to_string(), path_exclude: None, headers: None, maps: vec![LabelMap { path_match_re: "(".to_string(), abs_root_url: String::new(), labels: vec![] }] };
    assert!(Rules::compile(m).is_err());
    let m = LabelMaps { domain: "d".to_string(), path_exclude: Some(PathExcludeSettings { re: "[".to_string(), invert: false }), headers: None, maps: vec![] };
    assert!(Rules::compile(m).is_err());
}

#[test]
fn process_page_with_no_input_fails() {
    let r = rules(None, vec![]);
    let url = Link::parse("https://d/").unwrap();
    let res = process_page(&r, &url, String::new(), &doc(vec![]), &vec![], &vec![]);
    assert_eq!(res.err(), Some(ProcessError::NoInput));
}

#[test]
fn process_page_saves_labelled_pages() {
    let r = rules(None, vec![("^item/", vec![label("title", "h1", None)])]);
    let url = Link::parse("https://d/item/1").unwrap();
    let page = doc(vec![el("h1", vec![text("Title")])]);
    let p = process_page(&r, &url, "<h1>Title</h1>".to_string(), &page, &vec![vec![texts(&["Title"])]], &hrefs(&["/item/2", "#top"]))
        .ok()
        .unwrap();
    let s = p.save.unwrap();
    assert_eq!(s.url, "https://d/item/1");
    assert_eq!(s.input, "<h1>Title</h1>");
    assert_eq!(s.labels, vec![("title".to_string(), SelectorValue::Str("Title".to_string()))]);
    assert_eq!(link_strs(&p.links), vec!["https://d/item/2".to_string()]);
    let p = process_page(&r, &url, String::new(), &page, &vec![vec![Selected::Invalid]], &vec![]).ok().unwrap();
    assert!(p.save.is_none());
}

#[test]
fn repeated_links_are_added_once() {
    let c = Config { dir: String::new(), checkpoint_secs: 3600, bytes: 4096, expected_entries: 1000 };
    let mut f = Filter::new(&c, None, &vec![], 0).ok().unwrap().filter;
    let url = Link::parse("https://d/page").unwrap();
    let mut added = 0;
    for _ in 0..100 {
        if add_url(&mut f, &url, 1).is_some() {
            added += 1;
        }
    }
    assert_eq!(added, 1);
    let other = Link::parse("https://d/other").unwrap();
    assert!(add_url(&mut f, &other, 1).is_some());
}

#[test]
fn worker_steps() {
    assert!(matches!(worker_step(None, 250), WorkerStep::Sleep(250)));
    assert!(matches!(worker_step(Some(vec![0xff, 0xfe]), 250), WorkerStep::Fatal));
    assert!(matches!(worker_step(Some(b"not a url".to_vec()), 250), WorkerStep::Fatal));
    match worker_step(Some(b"https://d/a".to_vec()), 250) {
        WorkerStep::Process(l) => {
            assert_eq!(l.href, "https://d/a");
            assert_eq!(l.path, "/a");
        }
        _ => panic!("expected a URL to process"),
    }
}

#[test]
fn seeding_parses_roots_in_order() {
    let ls = seed_links(&hrefs(&["https://d/a", "https://d/b"])).ok().unwrap();
    assert_eq!(link_strs(&ls), vec!["https://d/a".to_string(), "https://d/b".to_string()]);
    assert_eq!(seed_links(&hrefs(&["https://d/a", "nope"])).err(), Some(1));
}
