use vstd::prelude::*;

use crate::paths::{
    is_descendant_or_equal, is_descendant_spec, normalize_path, normalize_spec, str_eq,
};
use html5ever::tendril::TendrilSink;

verus! {

// The listing extractor.  An HTML listing page is reduced, by a trusted walk
// of the parsed DOM, to the plain list of its elements' names and attributes;
// everything after that — picking anchors and their `href` values, resolving
// them against the page's URL, the same-origin and containment checks, the
// classification into subdirectories and files, and deduplication — is
// verified here.

/// What the crawl reads of a URL: the origin triple, the path, and the full
/// serialization (query and fragment already stripped).
pub struct UrlParts {
    pub scheme: String,
    /// The host, if the URL has one.
    pub host: Option<String>,
    /// The port, with the scheme's default filled in when absent.
    pub port: Option<u16>,
    pub path: String,
    /// The whole URL as a string; also the key under which duplicates are
    /// detected.
    pub serialized: String,
}

/// The mathematical value of a `UrlParts`.
pub ghost struct UrlView {
    pub scheme: Seq<char>,
    pub host: Option<Seq<char>>,
    pub port: Option<u16>,
    pub path: Seq<char>,
    pub serialized: Seq<char>,
}

impl View for UrlParts {
    type V = UrlView;

    open spec fn view(&self) -> UrlView {
        UrlView {
            scheme: self.scheme@,
            host: match self.host {
                Some(h) => Some(h@),
                None => None,
            },
            port: self.port,
            path: self.path@,
            serialized: self.serialized@,
        }
    }
}

impl DeepView for UrlParts {
    type V = UrlView;

    open spec fn deep_view(&self) -> UrlView {
        self.view()
    }
}

/// One attribute of an HTML element, as plain strings.
pub struct HtmlAttr {
    pub name: String,
    pub value: String,
}

/// The mathematical value of an `HtmlAttr`.
pub ghost struct HtmlAttrView {
    pub name: Seq<char>,
    pub value: Seq<char>,
}

impl View for HtmlAttr {
    type V = HtmlAttrView;

    open spec fn view(&self) -> HtmlAttrView {
        HtmlAttrView { name: self.name@, value: self.value@ }
    }
}

impl DeepView for HtmlAttr {
    type V = HtmlAttrView;

    open spec fn deep_view(&self) -> HtmlAttrView {
        self.view()
    }
}

/// One element of a parsed HTML document: its local name and its attributes.
pub struct HtmlElement {
    pub name: String,
    pub attrs: Vec<HtmlAttr>,
}

/// The mathematical value of an `HtmlElement`.
pub ghost struct HtmlElementView {
    pub name: Seq<char>,
    pub attrs: Seq<HtmlAttrView>,
}

impl View for HtmlElement {
    type V = HtmlElementView;

    open spec fn view(&self) -> HtmlElementView {
        HtmlElementView { name: self.name@, attrs: self.attrs.deep_view() }
    }
}

impl DeepView for HtmlElement {
    type V = HtmlElementView;

    open spec fn deep_view(&self) -> HtmlElementView {
        self.view()
    }
}

/// The parts of the URL that the string `href` resolves to against the base
/// URL serialized as `base`, query and fragment stripped — or `None` where
/// resolution fails.
pub uninterp spec fn resolve_of(base: Seq<char>, href: Seq<char>) -> Option<UrlView>;

/// Relies on `url::Url::join` (with `url::Url::parse` for the base): WHATWG
/// reference resolution of `href` against `base`, a function of the two
/// strings alone.  Query and fragment are cleared before the parts are read;
/// the port is `Url::port_or_known_default`.
#[verifier::external_body]
pub(crate) fn resolve_href(base: &str, href: &str) -> (r: Option<UrlParts>)
    ensures
        match r {
            Some(u) => resolve_of(base@, href@) == Some(u@),
            None => resolve_of(base@, href@) is None,
        },
{
    let mut u = url::Url::parse(base).ok()?.join(href).ok()?;
    u.set_query(None);
    u.set_fragment(None);
    Some(UrlParts {
        scheme: u.scheme().to_string(),
        host: u.host_str().map(|h| h.to_string()),
        port: u.port_or_known_default(),
        path: u.path().to_string(),
        serialized: u.as_str().to_string(),
    })
}

/// The elements of the document that `body` parses to, in document order:
/// for each, its local name and its attribute list.
pub uninterp spec fn elements_of(body: Seq<char>) -> Seq<HtmlElementView>;

/// Relies on `html5ever::parse_document`, driven into the reference-counted
/// DOM of `markup5ever_rcdom`: parses `body` as HTML — a function of the text
/// alone — and hands back each element's local name and attributes, in
/// document order.
#[verifier::external_body]
fn dom_elements(body: &str) -> (r: Vec<HtmlElement>)
    ensures
        r.deep_view() == elements_of(body@),
{
    let dom = html5ever::parse_document(markup5ever_rcdom::RcDom::default(), Default::default())
        .one(body);
    let (mut out, mut stack) = (Vec::new(), vec![dom.document.clone()]);
    while let Some(h) = stack.pop() {
        if let markup5ever_rcdom::NodeData::Element { ref name, ref attrs, .. } = h.data {
            let attrs = attrs.borrow().iter().map(
                |a| HtmlAttr { name: a.name.local.to_string(), value: a.value.to_string() },
            ).collect();
            out.push(HtmlElement { name: name.local.to_string(), attrs });
        }
        for c in h.children.borrow().iter().rev() {
            stack.push(c.clone());
        }
    }
    out
}

// ---------------------------------------------------------------------------
// Classification
// ---------------------------------------------------------------------------

/// Whether two URLs share scheme, host and effective port.
pub open spec fn same_origin(a: UrlView, b: UrlView) -> bool {
    a.scheme == b.scheme && a.host == b.host && a.port == b.port
}

/// Whether a path names a directory: it ends with `/`.
pub open spec fn is_dir_path(p: Seq<char>) -> bool {
    p.len() > 0 && p.last() == '/'
}

/// How the extractor treats one resolved link.
#[derive(Clone, Copy, PartialEq, Eq, Structural, Debug)]
pub enum Classification {
    /// Same-origin and strictly inside the current directory: recursed into.
    Subdirectory,
    /// No trailing slash: peeked at, wherever it points.
    File,
    /// A directory link that is out of origin or not strictly below: skipped.
    Rejected,
}

/// The classification of the resolved link `u` on the page at `current`: a
/// trailing slash makes a directory candidate, which must be same-origin and
/// strictly below `current`'s normalized path; anything else is a file.
pub open spec fn classify_spec(current: UrlView, u: UrlView) -> Classification {
    if is_dir_path(u.path) {
        if same_origin(current, u) && (match normalize_spec(current.path) {
            Some(cur) => is_descendant_spec(cur, u.path),
            None => false,
        }) {
            Classification::Subdirectory
        } else {
            Classification::Rejected
        }
    } else {
        Classification::File
    }
}

/// Whether the views of two optional strings are equal.
fn opt_str_eq(a: &Option<String>, b: &Option<String>) -> (r: bool)
    ensures
        r == ((match a {
            Some(x) => Some(x@),
            None => None,
        }) == (match b {
            Some(y) => Some(y@),
            None => None,
        })),
{
    match (a, b) {
        (Some(x), Some(y)) => str_eq(x.as_str(), y.as_str()),
        (None, None) => true,
        _ => false,
    }
}

/// Whether two optional ports are equal.
fn opt_port_eq(a: &Option<u16>, b: &Option<u16>) -> (r: bool)
    ensures
        r == (*a == *b),
{
    match (a, b) {
        (Some(x), Some(y)) => *x == *y,
        (None, None) => true,
        _ => false,
    }
}

/// Decides `classify_spec` for one resolved link against the current page.
pub fn classify_candidate(current: &UrlParts, u: &UrlParts) -> (r: Classification)
    ensures
        r == classify_spec(current@, u@),
{
    let p = u.path.as_str();
    let n = p.unicode_len();
    let dir = n > 0 && p.get_char(n - 1) == '/';
    if !dir {
        return Classification::File;
    }
    let origin_ok = str_eq(current.scheme.as_str(), u.scheme.as_str()) && opt_str_eq(
        &current.host,
        &u.host,
    ) && opt_port_eq(&current.port, &u.port);
    if !origin_ok {
        return Classification::Rejected;
    }
    match normalize_path(current.path.as_str()) {
        Err(_) => Classification::Rejected,
        Ok(cur) => {
            if is_descendant_or_equal(&cur, u.path.as_str()) {
                Classification::Subdirectory
            } else {
                Classification::Rejected
            }
        },
    }
}

// ---------------------------------------------------------------------------
// Extraction
// ---------------------------------------------------------------------------

/// Whether `s` already holds a URL with the same serialization as `u`.
pub open spec fn urls_contain(s: Seq<UrlView>, u: UrlView) -> bool {
    exists|i: int| 0 <= i < s.len() && s[i].serialized == u.serialized
}

/// `s` with `u` appended, unless an equal serialization is already there.
pub open spec fn insert_unique(s: Seq<UrlView>, u: UrlView) -> Seq<UrlView> {
    if urls_contain(s, u) {
        s
    } else {
        s.push(u)
    }
}

/// No two entries share a serialization.
pub open spec fn unique_urls(s: Seq<UrlView>) -> bool {
    forall|i: int, j: int| 0 <= i < j < s.len() ==> s[i].serialized != s[j].serialized
}

/// The effect of one `href` on the two collections: resolve, classify, and
/// insert without duplicating; a link that does not resolve is skipped.
pub open spec fn extract_step(
    current: UrlView,
    subs: Seq<UrlView>,
    files: Seq<UrlView>,
    href: Seq<char>,
) -> (Seq<UrlView>, Seq<UrlView>) {
    match resolve_of(current.serialized, href) {
        None => (subs, files),
        Some(u) => match classify_spec(current, u) {
            Classification::Subdirectory => (insert_unique(subs, u), files),
            Classification::File => (subs, insert_unique(files, u)),
            Classification::Rejected => (subs, files),
        },
    }
}

/// The two collections after processing all of `hrefs` in order.
pub open spec fn extract_hrefs(
    current: UrlView,
    subs: Seq<UrlView>,
    files: Seq<UrlView>,
    hrefs: Seq<Seq<char>>,
) -> (Seq<UrlView>, Seq<UrlView>)
    decreases hrefs.len(),
{
    if hrefs.len() == 0 {
        (subs, files)
    } else {
        let prev = extract_hrefs(current, subs, files, hrefs.drop_last());
        extract_step(current, prev.0, prev.1, hrefs.last())
    }
}

/// The `href` values among one element's attributes, in order.
pub open spec fn attr_hrefs(attrs: Seq<HtmlAttrView>) -> Seq<Seq<char>>
    decreases attrs.len(),
{
    if attrs.len() == 0 {
        Seq::empty()
    } else {
        let rest = attr_hrefs(attrs.drop_last());
        if attrs.last().name == seq!['h', 'r', 'e', 'f'] {
            rest.push(attrs.last().value)
        } else {
            rest
        }
    }
}

/// The `href` values of all anchor elements, in document order.
pub open spec fn anchor_hrefs(elems: Seq<HtmlElementView>) -> Seq<Seq<char>>
    decreases elems.len(),
{
    if elems.len() == 0 {
        Seq::empty()
    } else {
        let rest = anchor_hrefs(elems.drop_last());
        if elems.last().name == seq!['a'] {
            rest + attr_hrefs(elems.last().attrs)
        } else {
            rest
        }
    }
}

/// What extraction yields on a whole element list: the anchors' `href`s,
/// folded through resolution, classification and deduplication.
pub open spec fn extract_spec(current: UrlView, elems: Seq<HtmlElementView>) -> (
    Seq<UrlView>,
    Seq<UrlView>,
) {
    extract_hrefs(current, Seq::empty(), Seq::empty(), anchor_hrefs(elems))
}

proof fn lemma_extract_subs_classified(
    current: UrlView,
    subs: Seq<UrlView>,
    files: Seq<UrlView>,
    hrefs: Seq<Seq<char>>,
)
    requires
        forall|i: int|
            0 <= i < subs.len() ==> classify_spec(current, subs[i])
                == Classification::Subdirectory,
    ensures
        forall|i: int|
            0 <= i < extract_hrefs(current, subs, files, hrefs).0.len() ==> classify_spec(
                current,
                extract_hrefs(current, subs, files, hrefs).0[i],
            ) == Classification::Subdirectory,
    decreases hrefs.len(),
{
    if hrefs.len() > 0 {
        lemma_extract_subs_classified(current, subs, files, hrefs.drop_last());
    }
}

/// The extractor's safety guarantee: every subdirectory it yields — whatever
/// the page said — is same-origin with the page and its path normalizes to
/// something strictly below the page's own normalized path.  Every accepted
/// edge of the traversal therefore points strictly deeper, and the crawl
/// cannot loop through parent-pointing links or escape its root.
pub proof fn lemma_extracted_subdirectory_strictly_below(
    current: UrlView,
    elems: Seq<HtmlElementView>,
    i: int,
)
    requires
        0 <= i < extract_spec(current, elems).0.len(),
    ensures
        ({
            let u = extract_spec(current, elems).0[i];
            let cur = normalize_spec(current.path);
            &&& same_origin(current, u)
            &&& is_dir_path(u.path)
            &&& cur is Some
            &&& normalize_spec(u.path) is Some
            &&& normalize_spec(u.path).unwrap().len() > cur.unwrap().len()
            &&& normalize_spec(u.path).unwrap().take(cur.unwrap().len() as int) == cur.unwrap()
        }),
{
    lemma_extract_subs_classified(
        current,
        Seq::<UrlView>::empty(),
        Seq::<UrlView>::empty(),
        anchor_hrefs(elems),
    );
    let u = extract_spec(current, elems).0[i];
    assert(classify_spec(current, u) == Classification::Subdirectory);
    let cur = normalize_spec(current.path).unwrap();
    crate::paths::lemma_accepted_candidate_is_strictly_below(cur, u.path);
    assert(normalize_spec(u.path).unwrap().take(cur.len() as int) =~= cur);
}

/// The children of one listing page: the page's URL and the deduplicated
/// same-origin, in-subtree subdirectory links and file links found on it.
pub struct SubdirTok {
    pub current_url: UrlParts,
    pub subdirectories: Vec<UrlParts>,
    pub files: Vec<UrlParts>,
}

/// Whether `v` holds a URL with the same serialization as `u`.
fn contains_url(v: &Vec<UrlParts>, u: &UrlParts) -> (r: bool)
    ensures
        r == urls_contain(v.deep_view(), u@),
{
    let mut i: usize = 0;
    while i < v.len()
        invariant
            i <= v.len(),
            forall|j: int| 0 <= j < i ==> v.deep_view()[j].serialized != u@.serialized,
        decreases v.len() - i,
    {
        proof {
            assert(v.deep_view()[i as int] == v@[i as int].deep_view());
        }
        if str_eq(v[i].serialized.as_str(), u.serialized.as_str()) {
            return true;
        }
        i += 1;
    }
    false
}

/// Appends `u` unless an equal serialization is already present, keeping the
/// collection duplicate-free.
fn insert_url(v: &mut Vec<UrlParts>, u: UrlParts)
    requires
        unique_urls(old(v).deep_view()),
    ensures
        final(v).deep_view() == insert_unique(old(v).deep_view(), u@),
        unique_urls(final(v).deep_view()),
{
    if !contains_url(v, &u) {
        let ghost prev = v.deep_view();
        v.push(u);
        proof {
            assert(v.deep_view() =~= prev.push(u@));
        }
    }
}

impl SubdirTok {
    /// An empty child collection for the page at `current_url`.
    pub fn new(current_url: UrlParts) -> (r: SubdirTok)
        ensures
            r.current_url == current_url,
            r.subdirectories.deep_view() =~= Seq::<UrlView>::empty(),
            r.files.deep_view() =~= Seq::<UrlView>::empty(),
    {
        SubdirTok { current_url, subdirectories: Vec::new(), files: Vec::new() }
    }

    /// Extracts the children of the page at `url` from its element list:
    /// exactly `extract_spec`, and both collections come out duplicate-free.
    pub fn from_elements(url: UrlParts, elements: &Vec<HtmlElement>) -> (r: SubdirTok)
        ensures
            r.current_url == url,
            (r.subdirectories.deep_view(), r.files.deep_view()) == extract_spec(
                url@,
                elements.deep_view(),
            ),
            unique_urls(r.subdirectories.deep_view()),
            unique_urls(r.files.deep_view()),
    {
        let ghost gelems = elements.deep_view();
        // First pass: the anchors' href values, in document order.
        let mut hrefs: Vec<String> = Vec::new();
        let mut i: usize = 0;
        proof {
            assert(hrefs.deep_view() =~= anchor_hrefs(gelems.take(0)));
        }
        while i < elements.len()
            invariant
                i <= elements.len(),
                gelems == elements.deep_view(),
                hrefs.deep_view() == anchor_hrefs(gelems.take(i as int)),
            decreases elements.len() - i,
        {
            proof {
                assert(gelems.take(i + 1).drop_last() =~= gelems.take(i as int));
                assert(gelems.take(i + 1).last() == gelems[i as int]);
                assert(gelems[i as int] == elements@[i as int].deep_view());
                reveal_strlit("a");
                assert("a"@ =~= seq!['a']);
            }
            let e = &elements[i];
            if str_eq(e.name.as_str(), "a") {
                let ghost gattrs = e.attrs.deep_view();
                let mut j: usize = 0;
                proof {
                    assert(gattrs.take(0) =~= Seq::<HtmlAttrView>::empty());
                    assert(hrefs.deep_view() =~= anchor_hrefs(gelems.take(i as int)) + attr_hrefs(
                        gattrs.take(0),
                    ));
                }
                while j < e.attrs.len()
                    invariant
                        j <= e.attrs.len(),
                        gattrs == e.attrs.deep_view(),
                        hrefs.deep_view() == anchor_hrefs(gelems.take(i as int)) + attr_hrefs(
                            gattrs.take(j as int),
                        ),
                    decreases e.attrs.len() - j,
                {
                    proof {
                        assert(gattrs.take(j + 1).drop_last() =~= gattrs.take(j as int));
                        assert(gattrs.take(j + 1).last() == gattrs[j as int]);
                        assert(gattrs[j as int] == e.attrs@[j as int].deep_view());
                        reveal_strlit("href");
                        assert("href"@ =~= seq!['h', 'r', 'e', 'f']);
                    }
                    let a = &e.attrs[j];
                    if str_eq(a.name.as_str(), "href") {
                        let ghost prev = hrefs.deep_view();
                        hrefs.push(a.value.clone());
                        proof {
                            assert(hrefs.deep_view() =~= prev.push(gattrs[j as int].value));
                            assert(anchor_hrefs(gelems.take(i as int)) + attr_hrefs(
                                gattrs.take(j + 1),
                            ) =~= prev.push(gattrs[j as int].value));
                        }
                    }
                    j += 1;
                }
                proof {
                    assert(gattrs.take(j as int) =~= gattrs);
                    assert(anchor_hrefs(gelems.take(i + 1)) =~= anchor_hrefs(
                        gelems.take(i as int),
                    ) + attr_hrefs(gattrs));
                }
            } else {
                proof {
                    assert(anchor_hrefs(gelems.take(i + 1)) == anchor_hrefs(gelems.take(i as int)));
                }
            }
            i += 1;
        }
        proof {
            assert(gelems.take(i as int) =~= gelems);
        }
        // Second pass: resolve, classify and insert each href.
        let ghost ghrefs = hrefs.deep_view();
        let mut subs: Vec<UrlParts> = Vec::new();
        let mut files: Vec<UrlParts> = Vec::new();
        let mut k: usize = 0;
        proof {
            assert(subs.deep_view() =~= Seq::<UrlView>::empty());
            assert(files.deep_view() =~= Seq::<UrlView>::empty());
        }
        while k < hrefs.len()
            invariant
                k <= hrefs.len(),
                ghrefs == hrefs.deep_view(),
                (subs.deep_view(), files.deep_view()) == extract_hrefs(
                    url@,
                    Seq::<UrlView>::empty(),
                    Seq::<UrlView>::empty(),
                    ghrefs.take(k as int),
                ),
                unique_urls(subs.deep_view()),
                unique_urls(files.deep_view()),
            decreases hrefs.len() - k,
        {
            proof {
                assert(ghrefs.take(k + 1).drop_last() =~= ghrefs.take(k as int));
                assert(ghrefs.take(k + 1).last() == ghrefs[k as int]);
                assert(ghrefs[k as int] == hrefs@[k as int]@);
            }
            match resolve_href(url.serialized.as_str(), hrefs[k].as_str()) {
                None => {},
                Some(u) => {
                    match classify_candidate(&url, &u) {
                        Classification::Subdirectory => insert_url(&mut subs, u),
                        Classification::File => insert_url(&mut files, u),
                        Classification::Rejected => {},
                    }
                },
            }
            k += 1;
        }
        proof {
            assert(ghrefs.take(k as int) =~= ghrefs);
        }
        SubdirTok { current_url: url, subdirectories: subs, files }
    }

    /// Extracts the children of the listing page at `url` whose HTML text is
    /// `body`: the elements the text parses to, run through `extract_spec`.
    pub fn from_body(url: UrlParts, body: &str) -> (r: SubdirTok)
        ensures
            r.current_url == url,
            (r.subdirectories.deep_view(), r.files.deep_view()) == extract_spec(
                url@,
                elements_of(body@),
            ),
            unique_urls(r.subdirectories.deep_view()),
            unique_urls(r.files.deep_view()),
    {
        let elements = dom_elements(body);
        SubdirTok::from_elements(url, &elements)
    }
}

} // verus!
