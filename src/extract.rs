//! What is taken from a page: its training input (a cleaned tree of tags
//! and text), its labels, and the links that stay on the crawled host.
use crate::globals::{regex_matches, LabelValue, Pattern, Rule, Rules, Selector, SelectorValue};
use crate::text::{chars_of, nbsp_to_space, push_all, replace_nbsp, same_text, string_of, trim, trimmed};
use vstd::prelude::*;

verus! {

/// A parsed page, as a tree.
pub enum Node {
    Element { name: String, children: Vec<Node> },
    Text(String),
    /// The document itself, or a node that is neither element nor text.
    Other { children: Vec<Node> },
}

/// Tags whose whole subtree is left out of the training input.
pub open spec fn skipped_tag(name: Seq<char>) -> bool {
    name == seq!['s', 'c', 'r', 'i', 'p', 't'] || name == seq!['s', 't', 'y', 'l', 'e'] || name
        == seq!['n', 'o', 's', 'c', 'r', 'i', 'p', 't']
}

/// What a text node adds: its trimmed text with no-break spaces made plain.
pub open spec fn text_piece(t: Seq<char>) -> Seq<char> {
    nbsp_to_space(trimmed(t))
}

/// The concatenated contributions of the children `cs`: the training input
/// of each element that is not skipped, and the piece of each text node.
pub open spec fn children_input(cs: Seq<Node>) -> Seq<char>
    decreases cs,
{
    if cs.len() == 0 {
        Seq::empty()
    } else {
        let piece = match cs.last() {
            Node::Element { name, children } => if skipped_tag(name@) {
                Seq::empty()
            } else {
                training_input(cs.last())
            },
            Node::Text(t) => text_piece(t@),
            Node::Other { .. } => Seq::empty(),
        };
        children_input(cs.drop_last()) + piece
    }
}

/// Whether some child is a text node with text left after trimming.
pub open spec fn has_text_child(cs: Seq<Node>) -> bool {
    exists|i: int| 0 <= i < cs.len() && (#[trigger] cs[i] matches Node::Text(t) && trimmed(t@).len() > 0)
}

/// `<name>body</name>`.
pub open spec fn wrapped(name: Seq<char>, body: Seq<char>) -> Seq<char> {
    seq!['<'] + name + seq!['>'] + body + seq!['<', '/'] + name + seq!['>']
}

pub open spec fn children_of(n: Node) -> Seq<Node> {
    match n {
        Node::Element { children, .. } => children@,
        Node::Text(_) => Seq::empty(),
        Node::Other { children } => children@,
    }
}

/// The training input of a node; empty where there is none. An element with
/// a direct text child is wrapped in its tags.
pub open spec fn training_input(n: Node) -> Seq<char>
    decreases n,
{
    let body = match n {
        Node::Element { children, .. } => children_input(children@),
        Node::Text(_) => Seq::empty(),
        Node::Other { children } => children_input(children@),
    };
    if body.len() == 0 {
        Seq::empty()
    } else {
        match n {
            Node::Element { name, children } => if has_text_child(children@) {
                wrapped(name@, body)
            } else {
                body
            },
            _ => body,
        }
    }
}

/// Extracting again from a document that is nothing but the text of an
/// earlier extraction gives that text back (or nothing, where it was empty).
pub proof fn lemma_reextract_plain_text(root: Node, t: String, again: Node, t2: String)
    requires
        root matches Node::Other { children } && children@ == seq![Node::Text(t)],
        again matches Node::Other { children } && children@ == seq![Node::Text(t2)],
        t2@ == training_input(root),
    ensures
        training_input(again) == training_input(root),
{
    crate::text::lemma_clean_text_idempotent(t@);
    let cs = children_of(root);
    let cs2 = children_of(again);
    assert(cs.drop_last() =~= Seq::<Node>::empty());
    assert(cs2.drop_last() =~= Seq::<Node>::empty());
    assert(cs.last() == Node::Text(t));
    assert(cs2.last() == Node::Text(t2));
    assert(children_input(cs.drop_last()) == Seq::<char>::empty());
    assert(children_input(cs2.drop_last()) == Seq::<char>::empty());
    assert(children_input(cs) =~= text_piece(t@));
    assert(children_input(cs2) =~= text_piece(t2@));
    if text_piece(t@).len() == 0 {
        assert(t2@ =~= Seq::<char>::empty());
        assert(trimmed(t2@) =~= Seq::<char>::empty());
    }
}

fn is_skipped_tag(name: &str) -> (r: bool)
    ensures
        r == skipped_tag(name@),
{
    let c = chars_of(name);
    let r = (c.len() == 6 && c[0] == 's' && c[1] == 'c' && c[2] == 'r' && c[3] == 'i' && c[4] == 'p'
        && c[5] == 't') || (c.len() == 5 && c[0] == 's' && c[1] == 't' && c[2] == 'y' && c[3] == 'l'
        && c[4] == 'e') || (c.len() == 8 && c[0] == 'n' && c[1] == 'o' && c[2] == 's' && c[3] == 'c'
        && c[4] == 'r' && c[5] == 'i' && c[6] == 'p' && c[7] == 't');
    proof {
        if c@.len() == 6 {
            assert(r <==> c@ =~= seq!['s', 'c', 'r', 'i', 'p', 't']);
        }
        if c@.len() == 5 {
            assert(r <==> c@ =~= seq!['s', 't', 'y', 'l', 'e']);
        }
        if c@.len() == 8 {
            assert(r <==> c@ =~= seq!['n', 'o', 's', 'c', 'r', 'i', 'p', 't']);
        }
    }
    r
}

fn input_chars(root: &Node) -> (r: Vec<char>)
    ensures
        r@ == training_input(*root),
    decreases root,
{
    let children = match root {
        Node::Element { children, .. } => children,
        Node::Text(_) => {
            return Vec::new();
        },
        Node::Other { children } => children,
    };
    let mut out: Vec<char> = Vec::new();
    let mut has_text = false;
    let mut i: usize = 0;
    while i < children.len()
        invariant
            i <= children@.len(),
            children@ == children_of(*root),
            out@ == children_input(children@.subrange(0, i as int)),
            has_text == has_text_child(children@.subrange(0, i as int)),
        decreases children.len() - i,
    {
        let ghost pre = children@.subrange(0, i + 1);
        assert(pre.drop_last() =~= children@.subrange(0, i as int));
        match &children[i] {
            Node::Element { name, .. } => {
                if !is_skipped_tag(name.as_str()) {
                    proof {
                        assert(decreases_to!(*root => children@[i as int]));
                    }
                    let sub = input_chars(&children[i]);
                    push_all(&mut out, sub.as_slice());
                }
            },
            Node::Text(t) => {
                let tc = chars_of(t.as_str());
                let tr = trim(tc.as_slice());
                if tr.len() > 0 {
                    let piece = replace_nbsp(tr.as_slice());
                    push_all(&mut out, piece.as_slice());
                    has_text = true;
                    assert(pre[i as int] == children@[i as int]);
                }
            },
            Node::Other { .. } => {},
        }
        proof {
            let prev = children@.subrange(0, i as int);
            if has_text_child(pre) && !has_text_child(prev) {
                let k = choose|k: int| 0 <= k < pre.len() && (#[trigger] pre[k] matches Node::Text(t) && trimmed(t@).len() > 0);
                if k < i {
                    assert(prev[k] == pre[k]);
                }
            }
            if has_text_child(prev) {
                let k = choose|k: int| 0 <= k < prev.len() && (#[trigger] prev[k] matches Node::Text(t) && trimmed(t@).len() > 0);
                assert(pre[k] == prev[k]);
            }
        }
        i = i + 1;
    }
    assert(children@.subrange(0, children@.len() as int) =~= children@);
    if out.len() == 0 {
        return out;
    }
    match root {
        Node::Element { name, .. } => {
            if has_text {
                let nc = chars_of(name.as_str());
                let mut w: Vec<char> = Vec::new();
                w.push('<');
                push_all(&mut w, nc.as_slice());
                w.push('>');
                push_all(&mut w, out.as_slice());
                w.push('<');
                w.push('/');
                push_all(&mut w, nc.as_slice());
                w.push('>');
                assert(w@ =~= wrapped(name@, out@));
                w
            } else {
                out
            }
        },
        _ => out,
    }
}

/// The training input of the page rooted at `root`, or `None` where it is
/// empty.
pub fn get_training_input(root: &Node) -> (r: Option<String>)
    ensures
        r is None <==> training_input(*root).len() == 0,
        r matches Some(s) ==> s@ == training_input(*root),
{
    let v = input_chars(root);
    if v.len() == 0 {
        None
    } else {
        Some(string_of(v.as_slice()))
    }
}

/// A parsed URL, as the parts that the crawler reads.
#[derive(Debug, Clone, PartialEq, Eq)]
pub struct Link {
    /// The whole URL, serialized.
    pub href: String,
    pub scheme: String,
    pub domain: Option<String>,
    pub path: String,
}

/// A parsed URL as plain sequences: serialization, scheme, domain, path.
pub type UrlView = (Seq<char>, Seq<char>, Option<Seq<char>>, Seq<char>);

impl View for Link {
    type V = UrlView;

    open spec fn view(&self) -> UrlView {
        (
            self.href@,
            self.scheme@,
            match self.domain {
                Some(d) => Some(d@),
                None => None,
            },
            self.path@,
        )
    }
}

/// What `url::Url::parse` makes of `s`, read through `as_str`, `scheme`,
/// `domain` and `path`; `None` where it fails.
pub uninterp spec fn url_parse(s: Seq<char>) -> Option<UrlView>;

/// Relies on `url::Url::parse` and its accessors `as_str`, `scheme`, `domain`
/// and `path`.
#[verifier::external_body]
fn parse_url(s: &str) -> (r: Option<Link>)
    ensures
        r is None <==> url_parse(s@) is None,
        r matches Some(l) ==> url_parse(s@) == Some(l@),
{
    url::Url::parse(s).ok().map(
        |u|
            Link {
                href: u.as_str().to_string(),
                scheme: u.scheme().to_string(),
                domain: u.domain().map(|d| d.to_string()),
                path: u.path().to_string(),
            },
    )
}

impl Link {
    /// Parses an absolute URL.
    pub fn parse(s: &str) -> (r: Option<Link>)
        ensures
            r is None <==> url_parse(s@) is None,
            r matches Some(l) ==> url_parse(s@) == Some(l@),
    {
        parse_url(s)
    }
}

/// `p` without one leading `/`.
pub open spec fn strip_slash(p: Seq<char>) -> Seq<char> {
    if p.len() > 0 && p[0] == '/' {
        p.drop_first()
    } else {
        p
    }
}

fn strip_slash_exec(p: &str) -> (r: String)
    ensures
        r@ == strip_slash(p@),
{
    let mut c = chars_of(p);
    if c.len() > 0 && c[0] == '/' {
        c.remove(0);
        assert(c@ =~= p@.drop_first());
    }
    string_of(c.as_slice())
}

/// Where an `href` found on a page served with `scheme` points, when it is a
/// link to another page of `domain`.
pub open spec fn resolve_href(href: Seq<char>, scheme: Seq<char>, domain: Seq<char>) -> Option<UrlView> {
    if href.len() > 0 && href[0] == '#' {
        None
    } else if href.len() > 0 && href[0] == '/' {
        url_parse(scheme + seq![':', '/', '/'] + domain + href)
    } else {
        match url_parse(href) {
            Some(u) => if u.2 == Some(domain) {
                Some(u)
            } else {
                None
            },
            None => None,
        }
    }
}

/// Whether the exclude setting (a pattern and its `invert` flag) keeps a URL.
pub open spec fn path_kept(u: UrlView, exclude: Option<(Seq<char>, bool)>) -> bool {
    match exclude {
        Some((pat, invert)) => regex_matches(pat, strip_slash(u.3)) == invert,
        None => true,
    }
}

/// The link that `href` gives, if it survives every filter.
pub open spec fn outlink(href: Seq<char>, scheme: Seq<char>, domain: Seq<char>, exclude: Option<(Seq<char>, bool)>) -> Option<UrlView> {
    match resolve_href(href, scheme, domain) {
        Some(u) => if path_kept(u, exclude) {
            Some(u)
        } else {
            None
        },
        None => None,
    }
}

/// The links that `hrefs` give, in order.
pub open spec fn outlinks(hrefs: Seq<Seq<char>>, scheme: Seq<char>, domain: Seq<char>, exclude: Option<(Seq<char>, bool)>) -> Seq<UrlView>
    decreases hrefs.len(),
{
    if hrefs.len() == 0 {
        Seq::empty()
    } else {
        let prev = outlinks(hrefs.drop_last(), scheme, domain, exclude);
        match outlink(hrefs.last(), scheme, domain, exclude) {
            Some(u) => prev.push(u),
            None => prev,
        }
    }
}

impl Rules {
    /// The exclude setting as plain values.
    pub open spec fn exclude_view(&self) -> Option<(Seq<char>, bool)> {
        match self.exclude {
            Some((p, inv)) => Some((p.source(), inv)),
            None => None,
        }
    }
}

fn keep_path(u: &Link, exclude: &Option<(Pattern, bool)>) -> (r: bool)
    ensures
        r == path_kept(
            u@,
            match *exclude {
                Some((p, inv)) => Some((p.source(), inv)),
                None => None,
            },
        ),
{
    match exclude {
        Some((p, invert)) => {
            let path = strip_slash_exec(u.path.as_str());
            p.is_match(path.as_str()) == *invert
        },
        None => true,
    }
}

fn resolve(href: &str, scheme: &str, domain: &str) -> (r: Option<Link>)
    ensures
        r is None <==> resolve_href(href@, scheme@, domain@) is None,
        r matches Some(l) ==> resolve_href(href@, scheme@, domain@) == Some(l@),
{
    let h = chars_of(href);
    if h.len() > 0 && h[0] == '#' {
        return None;
    }
    if h.len() > 0 && h[0] == '/' {
        let mut full: Vec<char> = chars_of(scheme);
        full.push(':');
        full.push('/');
        full.push('/');
        let d = chars_of(domain);
        push_all(&mut full, d.as_slice());
        push_all(&mut full, h.as_slice());
        let s = string_of(full.as_slice());
        assert(s@ =~= scheme@ + seq![':', '/', '/'] + domain@ + href@);
        return parse_url(s.as_str());
    }
    match parse_url(href) {
        Some(u) => {
            let same = match &u.domain {
                Some(d) => same_text(d.as_str(), domain),
                None => false,
            };
            if same {
                Some(u)
            } else {
                None
            }
        },
        None => None,
    }
}

/// The links among `hrefs` (the `href` of every `a` element of a page served
/// with scheme `scheme`) that stay on the crawled domain and pass the exclude
/// setting, in order.
pub fn get_links(hrefs: &Vec<String>, scheme: &str, rules: &Rules) -> (r: Vec<Link>)
    ensures
        r@.map_values(|l: Link| l@) == outlinks(
            hrefs@.map_values(|h: String| h@),
            scheme@,
            rules.domain@,
            rules.exclude_view(),
        ),
{
    let ghost hs = hrefs@.map_values(|h: String| h@);
    let mut out: Vec<Link> = Vec::new();
    let mut i: usize = 0;
    while i < hrefs.len()
        invariant
            i <= hrefs@.len(),
            hs == hrefs@.map_values(|h: String| h@),
            out@.map_values(|l: Link| l@) == outlinks(hs.subrange(0, i as int), scheme@, rules.domain@, rules.exclude_view()),
        decreases hrefs.len() - i,
    {
        assert(hs.subrange(0, i + 1).drop_last() =~= hs.subrange(0, i as int));
        assert(hs.subrange(0, i + 1).last() == hrefs@[i as int]@);
        match resolve(hrefs[i].as_str(), scheme, rules.domain.as_str()) {
            Some(u) => {
                if keep_path(&u, &rules.exclude) {
                    let ghost before = out@;
                    out.push(u);
                    assert(out@.map_values(|l: Link| l@) =~= before.map_values(|l: Link| l@).push(u@));
                }
            },
            None => {},
        }
        i = i + 1;
    }
    assert(hs.subrange(0, hrefs@.len() as int) =~= hs);
    out
}

/// What the CSS selector of a label found on a page: the text content of
/// every match, in document order, or nothing where the selector is invalid.
pub enum Selected {
    Invalid,
    Texts(Vec<String>),
}

impl Selected {
    pub open spec fn texts(&self) -> Option<Seq<Seq<char>>> {
        match self {
            Selected::Invalid => None,
            Selected::Texts(v) => Some(v@.map_values(|t: String| t@)),
        }
    }
}

/// One extracted label, as plain values.
pub type Entry = (Seq<char>, LabelValue);

pub open spec fn entry_view(e: (String, SelectorValue)) -> Entry {
    (e.0@, e.1.value())
}

/// The label that `l` yields from what its selector found: every match as a
/// list when `list` is `Some(true)`, else the first match; none where the
/// selector is invalid, or where a single value was asked and nothing matched.
pub open spec fn label_entry(l: Selector, found: Option<Seq<Seq<char>>>) -> Option<Entry> {
    match found {
        None => None,
        Some(ts) => if l.list == Some(true) {
            Some((l.name@, LabelValue::Arr(ts)))
        } else if ts.len() > 0 {
            Some((l.name@, LabelValue::Str(ts[0])))
        } else {
            None
        },
    }
}

/// The labels that a rule yields, in the order of its selectors; the selector
/// at index `i` found `found[i]` (nothing where `found` is too short).
pub open spec fn rule_entries(labels: Seq<Selector>, found: Seq<Option<Seq<Seq<char>>>>) -> Seq<Entry>
    decreases labels.len(),
{
    if labels.len() == 0 {
        Seq::empty()
    } else {
        let prev = rule_entries(labels.drop_last(), found);
        let i = labels.len() - 1;
        let f = if i < found.len() {
            found[i]
        } else {
            None
        };
        match label_entry(labels.last(), f) {
            Some(e) => prev.push(e),
            None => prev,
        }
    }
}

pub open spec fn found_view(sels: Seq<Selected>) -> Seq<Option<Seq<Seq<char>>>> {
    sels.map_values(|s: Selected| s.texts())
}

fn clone_texts(v: &Vec<String>) -> (r: Vec<String>)
    ensures
        r@.map_values(|t: String| t@) == v@.map_values(|t: String| t@),
{
    let mut r: Vec<String> = Vec::new();
    let mut k: usize = 0;
    while k < v.len()
        invariant
            k <= v@.len(),
            r@.map_values(|t: String| t@) =~= v@.subrange(0, k as int).map_values(|t: String| t@),
        decreases v.len() - k,
    {
        let ghost before = r@;
        r.push(v[k].clone());
        assert(r@.map_values(|t: String| t@) =~= before.map_values(|t: String| t@).push(v@[k as int]@));
        assert(v@.subrange(0, k + 1) =~= v@.subrange(0, k as int).push(v@[k as int]));
        k = k + 1;
    }
    assert(v@.subrange(0, v@.len() as int) =~= v@);
    r
}

/// The labels that `map` yields on a page where the selector of its label at
/// index `i` found `sels[i]`.
pub fn apply_label_map(map: &Rule, sels: &Vec<Selected>) -> (r: Vec<(String, SelectorValue)>)
    ensures
        r@.map_values(|e: (String, SelectorValue)| entry_view(e)) == rule_entries(map.labels@, found_view(sels@)),
{
    let ghost found = found_view(sels@);
    let labels = &map.labels;
    let mut out: Vec<(String, SelectorValue)> = Vec::new();
    let mut i: usize = 0;
    while i < labels.len()
        invariant
            i <= labels@.len(),
            labels == &map.labels,
            found == found_view(sels@),
            out@.map_values(|e: (String, SelectorValue)| entry_view(e)) == rule_entries(labels@.subrange(0, i as int), found),
        decreases labels.len() - i,
    {
        let ghost pre = labels@.subrange(0, i + 1);
        assert(pre.drop_last() =~= labels@.subrange(0, i as int));
        let label = &labels[i];
        let ghost before = out@;
        if i < sels.len() {
            match &sels[i] {
                Selected::Invalid => {},
                Selected::Texts(ts) => {
                    if label.list == Some(true) {
                        let v = clone_texts(ts);
                        out.push((label.name.clone(), SelectorValue::Arr(v)));
                    } else if ts.len() > 0 {
                        out.push((label.name.clone(), SelectorValue::Str(ts[0].clone())));
                    }
                },
            }
        }
        assert(out@.map_values(|e: (String, SelectorValue)| entry_view(e)) =~= match label_entry(
            *label,
            if i < found.len() { found[i as int] } else { None },
        ) {
            Some(e) => before.map_values(|e: (String, SelectorValue)| entry_view(e)).push(e),
            None => before.map_values(|e: (String, SelectorValue)| entry_view(e)),
        });
        i = i + 1;
    }
    assert(labels@.subrange(0, labels@.len() as int) =~= labels@);
    out
}

/// The labels of a page at `path` (its leading `/` dropped before matching):
/// those of every rule whose regex matches, in rule order.
pub open spec fn output_entries(rules: Seq<Rule>, path: Seq<char>, found: Seq<Seq<Selected>>) -> Seq<Entry>
    decreases rules.len(),
{
    if rules.len() == 0 {
        Seq::empty()
    } else {
        let prev = output_entries(rules.drop_last(), path, found);
        let i = rules.len() - 1;
        let r = rules.last();
        if regex_matches(r.path_match.source(), strip_slash(path)) {
            let f = if i < found.len() {
                found_view(found[i])
            } else {
                Seq::empty()
            };
            prev + rule_entries(r.labels@, f)
        } else {
            prev
        }
    }
}

/// The map that a list of labels stands for: a later entry for a name
/// overrides an earlier one.
pub open spec fn entries_map(es: Seq<Entry>) -> Map<Seq<char>, LabelValue>
    decreases es.len(),
{
    if es.len() == 0 {
        Map::empty()
    } else {
        entries_map(es.drop_last()).insert(es.last().0, es.last().1)
    }
}

/// The labels of the page at URL path `path`, where `sels[i][j]` is what the
/// selector of label `j` of rule `i` found.
pub fn get_training_output(rules: &Rules, path: &str, sels: &Vec<Vec<Selected>>) -> (r: Vec<(String, SelectorValue)>)
    ensures
        r@.map_values(|e: (String, SelectorValue)| entry_view(e)) == output_entries(
            rules.rules@,
            path@,
            sels@.map_values(|v: Vec<Selected>| v@),
        ),
{
    let ghost found = sels@.map_values(|v: Vec<Selected>| v@);
    let stripped = strip_slash_exec(path);
    let mut out: Vec<(String, SelectorValue)> = Vec::new();
    let mut i: usize = 0;
    while i < rules.rules.len()
        invariant
            i <= rules.rules@.len(),
            found == sels@.map_values(|v: Vec<Selected>| v@),
            stripped@ == strip_slash(path@),
            out@.map_values(|e: (String, SelectorValue)| entry_view(e)) == output_entries(rules.rules@.subrange(0, i as int), path@, found),
        decreases rules.rules.len() - i,
    {
        let ghost pre = rules.rules@.subrange(0, i + 1);
        assert(pre.drop_last() =~= rules.rules@.subrange(0, i as int));
        let rule = &rules.rules[i];
        if rule.path_match.is_match(stripped.as_str()) {
            let ghost before = out@;
            let mut add = if i < sels.len() {
                apply_label_map(rule, &sels[i])
            } else {
                apply_label_map(rule, &Vec::new())
            };
            proof {
                if i >= sels.len() {
                    assert(found_view(Seq::<Selected>::empty()) =~= Seq::<Option<Seq<Seq<char>>>>::empty());
                }
            }
            let ghost added = add@;
            out.append(&mut add);
            assert(out@.map_values(|e: (String, SelectorValue)| entry_view(e)) =~= before.map_values(
                |e: (String, SelectorValue)| entry_view(e),
            ) + added.map_values(|e: (String, SelectorValue)| entry_view(e)));
        }
        i = i + 1;
    }
    assert(rules.rules@.subrange(0, rules.rules@.len() as int) =~= rules.rules@);
    out
}

/// Labels from a later list override those of an earlier one: where two
/// matching rules both yield a name, the later rule's value is kept.
pub proof fn lemma_later_labels_win(a: Seq<Entry>, b: Seq<Entry>)
    ensures
        entries_map(a + b) == entries_map(a).union_prefer_right(entries_map(b)),
    decreases b.len(),
{
    if b.len() == 0 {
        assert(a + b =~= a);
        assert(entries_map(a).union_prefer_right(Map::empty()) =~= entries_map(a));
    } else {
        lemma_later_labels_win(a, b.drop_last());
        assert((a + b).drop_last() =~= a + b.drop_last());
        assert(entries_map(a + b) =~= entries_map(a).union_prefer_right(entries_map(b)));
    }
}

} // verus!
