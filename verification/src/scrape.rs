use vstd::prelude::*;

use crate::urls::{normalize, norm_spec, CrawlError, CrawlSpec, CrawlUrl};
use crate::visited::VisitedSet;

verus! {

/// Whether the `scraper` crate accepts `sel` as a CSS selector group; the
/// answer depends on the characters of `sel` alone.
pub uninterp spec fn sel_valid(sel: Seq<char>) -> bool;

/// The inner HTML of every element of the document `html` that matches the
/// valid selector `sel`, in document order; a function of the two character
/// sequences alone.
pub uninterp spec fn inner_htmls(html: Seq<char>, sel: Seq<char>) -> Seq<Seq<char>>;

/// The value of attribute `attr` on every element of the document `html`
/// that matches the valid selector `sel`, in document order; a function of
/// the three character sequences alone.
pub uninterp spec fn attr_values(html: Seq<char>, sel: Seq<char>, attr: Seq<char>) -> Seq<
    Seq<char>,
>;

/// What `urlencoding::encode` makes of `text`; a function of the characters
/// alone.
pub uninterp spec fn encoded(text: Seq<char>) -> Seq<char>;

/// Relies on `scraper::Selector::parse`: whether it accepts the selector.
#[verifier::external_body]
fn selector_ok(sel: &str) -> (b: bool)
    ensures
        b == sel_valid(sel@),
{
    scraper::Selector::parse(sel).is_ok()
}

/// Relies on `scraper::Selector::parse`, `scraper::Html::parse_document`,
/// `Html::select` and `ElementRef::inner_html`: the inner HTML of each
/// matched element, in document order.
#[verifier::external_body]
fn select_inner_htmls(html: &str, sel: &str) -> (r: Vec<String>)
    requires
        sel_valid(sel@),
    ensures
        r.deep_view() == inner_htmls(html@, sel@),
{
    let s = scraper::Selector::parse(sel).expect("the selector was checked");
    let doc = scraper::Html::parse_document(html);
    doc.select(&s).map(|el| el.inner_html()).collect()
}

/// Relies on `scraper::Selector::parse`, `scraper::Html::parse_document`,
/// `Html::select` and `ElementRef::attr`: the value of the attribute on each
/// matched element, in document order. Called with a selector that requires
/// the attribute (`a[href]`), so every matched element carries it.
#[verifier::external_body]
fn select_attr_values(html: &str, sel: &str, attr: &str) -> (r: Vec<String>)
    requires
        sel_valid(sel@),
    ensures
        r.deep_view() == attr_values(html@, sel@, attr@),
{
    let s = scraper::Selector::parse(sel).expect("the selector was checked");
    let doc = scraper::Html::parse_document(html);
    doc.select(&s).map(|el| el.attr(attr).unwrap_or("").to_string()).collect()
}

/// Relies on `urlencoding::encode`: percent-encoding of the input text.
#[verifier::external_body]
fn encode_text(text: &str) -> (r: String)
    ensures
        r@ == encoded(text@),
{
    urlencoding::encode(text).into_owned()
}

/// The selector that marks help-tag elements.
pub open spec fn help_tag_selector_spec() -> Seq<char> {
    ".help-tag, .help-tag-right"@
}

pub fn help_tag_selector() -> (r: &'static str)
    ensures
        r@ == help_tag_selector_spec(),
{
    ".help-tag, .help-tag-right"
}

/// The selector that finds anchors carrying a hyperlink.
pub open spec fn link_selector_spec() -> Seq<char> {
    "a[href]"@
}

pub fn link_selector() -> (r: &'static str)
    ensures
        r@ == link_selector_spec(),
{
    "a[href]"
}

/// Whether both fixed extraction selectors compile. An invalid selector is a
/// configuration fault, surfaced by this check before any crawling begins.
pub fn selectors_compile() -> (b: bool)
    ensures
        b == (sel_valid(help_tag_selector_spec()) && sel_valid(link_selector_spec())),
{
    selector_ok(help_tag_selector()) && selector_ok(link_selector())
}

/// The help-tag URL built for one matched element: the page's resolved URL
/// with the percent-encoded element text joined on as a fragment.
pub open spec fn tag_of(base: CrawlSpec, text: Seq<char>) -> Seq<char> {
    base.text + seq!['#'] + encoded(text)
}

/// The set of help-tag URLs extracted from the matched element texts:
/// duplicates collapse, order carries no meaning.
pub open spec fn tags_spec(base: CrawlSpec, texts: Seq<Seq<char>>) -> Set<Seq<char>>
    decreases texts.len(),
{
    if texts.len() == 0 {
        Set::empty()
    } else {
        tags_spec(base, texts.drop_last()).insert(tag_of(base, texts.last()))
    }
}

/// The output unit for one page: the set of help-tag URLs found on it, held
/// in first-occurrence order with no URL twice.
pub struct ExtractionResult {
    tags: Vec<String>,
}

impl View for ExtractionResult {
    type V = Seq<Seq<char>>;

    closed spec fn view(&self) -> Seq<Seq<char>> {
        self.tags.deep_view()
    }
}

impl ExtractionResult {
    /// Set semantics: no tag URL is held twice; every `ExtractionResult`
    /// satisfies this, as its type invariant.
    #[verifier::type_invariant]
    pub closed spec fn wf(self) -> bool {
        forall|i: int, j: int| 0 <= i < j < self.tags@.len() ==> self.tags@[i]@ != self.tags@[j]@
    }

    /// The extracted tag URLs as a set.
    pub open spec fn tag_set(&self) -> Set<Seq<char>> {
        self@.to_set()
    }

    /// The extracted tag URLs, one per distinct tag.
    pub fn tags(&self) -> (r: &Vec<String>)
        ensures
            r.deep_view() == self@,
    {
        &self.tags
    }
}

/// The persisted form of a sequence of tag URLs: one URL per line, each line
/// newline-terminated, no header and no framing.
pub open spec fn lines_spec(tags: Seq<Seq<char>>) -> Seq<char>
    decreases tags.len(),
{
    if tags.len() == 0 {
        Seq::empty()
    } else {
        lines_spec(tags.drop_last()) + tags.last() + seq!['\n']
    }
}

/// Render an extraction result as the text its consumer persists: each tag
/// URL followed by a newline, in the result's order.
pub fn render_lines(res: &ExtractionResult) -> (out: String)
    ensures
        out@ == lines_spec(res@),
{
    let tags = res.tags();
    let n = tags.len();
    let mut out = String::new();
    let mut i: usize = 0;
    proof {
        assert(res@.take(0) =~= Seq::<Seq<char>>::empty());
    }
    while i < n
        invariant
            0 <= i <= n,
            n == tags@.len(),
            tags.deep_view() == res@,
            res@.len() == n,
            forall|k: int| 0 <= k < n ==> res@[k] == tags@[k]@,
            out@ == lines_spec(res@.take(i as int)),
        decreases n - i,
    {
        out.append(tags[i].as_str());
        out.append("\n");
        proof {
            reveal_strlit("\n");
            assert("\n"@ =~= seq!['\n']);
            assert(res@.take(i + 1).drop_last() =~= res@.take(i as int));
            assert(res@.take(i + 1).last() == res@[i as int]);
        }
        i = i + 1;
    }
    proof {
        assert(res@.take(n as int) =~= res@);
    }
    out
}

/// Tag-set semantics: an `ExtractionResult` holds no tag URL twice.
/// `r.wf()` holds of every `ExtractionResult` value, as its type invariant;
/// callers obtain it with `use_type_invariant`.
pub proof fn lemma_tags_deduplicated(r: &ExtractionResult, i: int, j: int)
    requires
        r.wf(),
        0 <= i < r@.len(),
        0 <= j < r@.len(),
        i != j,
    ensures
        r@[i] != r@[j],
{
}

/// The texts of a sequence of normalized URLs.
pub open spec fn texts_of(links: Seq<CrawlSpec>) -> Seq<Seq<char>> {
    links.map_values(|c: CrawlSpec| c.text)
}

/// The link-discovery pass over the href values of one page, front first:
/// each href is normalized against the page's resolved URL `base`; a
/// malformed href is skipped, a URL whose host is not `domain` is dropped,
/// one already in `visited` is skipped, and each remaining URL enters
/// `visited` at once and joins the new-links output. Yields the visited
/// sequence after the pass and the new links, in discovery order.
pub open spec fn link_pass(
    base: CrawlSpec,
    domain: Seq<char>,
    visited: Seq<Seq<char>>,
    hrefs: Seq<Seq<char>>,
) -> (Seq<Seq<char>>, Seq<CrawlSpec>)
    decreases hrefs.len(),
{
    if hrefs.len() == 0 {
        (visited, Seq::empty())
    } else {
        match norm_spec(base.text, hrefs[0]) {
            Ok(c) => {
                if c.host == domain && !visited.contains(c.text) {
                    let (vf, nl) = link_pass(base, domain, visited.push(c.text), hrefs.drop_first());
                    (vf, seq![c] + nl)
                } else {
                    link_pass(base, domain, visited, hrefs.drop_first())
                }
            },
            Err(_) => link_pass(base, domain, visited, hrefs.drop_first()),
        }
    }
}

/// What the link pass guarantees, for any page and any starting state:
/// the visited sequence only grows, by exactly the texts of the new links;
/// every new link's host is the allowed domain; no new link was visited
/// before; and the new links are pairwise distinct — on one page, two hrefs
/// resolving to the same URL yield one entry, and a URL already visited on
/// an earlier page yields none.
pub proof fn lemma_link_pass_props(
    base: CrawlSpec,
    domain: Seq<char>,
    visited: Seq<Seq<char>>,
    hrefs: Seq<Seq<char>>,
)
    ensures
        ({
            let (vf, nl) = link_pass(base, domain, visited, hrefs);
            &&& vf =~= visited + texts_of(nl)
            &&& forall|k: int| 0 <= k < nl.len() ==> (#[trigger] nl[k]).host == domain
            &&& forall|k: int| 0 <= k < nl.len() ==> !visited.contains((#[trigger] nl[k]).text)
            &&& forall|k: int, l: int| 0 <= k < l < nl.len() ==> nl[k].text != nl[l].text
        }),
    decreases hrefs.len(),
{
    let (vf, nl) = link_pass(base, domain, visited, hrefs);
    if hrefs.len() == 0 {
        assert(texts_of(nl) =~= Seq::<Seq<char>>::empty());
    } else {
        let rest = hrefs.drop_first();
        match norm_spec(base.text, hrefs[0]) {
            Ok(c) => {
                if c.host == domain && !visited.contains(c.text) {
                    let v2 = visited.push(c.text);
                    lemma_link_pass_props(base, domain, v2, rest);
                    let (vf2, nl2) = link_pass(base, domain, v2, rest);
                    assert(nl =~= seq![c] + nl2);
                    assert(texts_of(nl) =~= seq![c.text] + texts_of(nl2));
                    assert(vf =~= visited + texts_of(nl));
                    assert forall|k: int| 0 <= k < nl.len() implies !visited.contains(
                        (#[trigger] nl[k]).text,
                    ) by {
                        if k > 0 {
                            assert(nl[k] == nl2[k - 1]);
                            assert(!v2.contains(nl2[k - 1].text));
                            assert(forall|m: int|
                                0 <= m < visited.len() ==> v2[m] == #[trigger] visited[m]);
                        }
                    }
                    assert forall|k: int, l: int| 0 <= k < l < nl.len() implies nl[k].text
                        != nl[l].text by {
                        if k == 0 {
                            assert(nl[l] == nl2[l - 1]);
                            assert(!v2.contains(nl2[l - 1].text));
                            assert(v2[visited.len() as int] == c.text);
                        } else {
                            assert(nl[k] == nl2[k - 1] && nl[l] == nl2[l - 1]);
                        }
                    }
                } else {
                    lemma_link_pass_props(base, domain, visited, rest);
                }
            },
            Err(_) => {
                lemma_link_pass_props(base, domain, visited, rest);
            },
        }
    }
}

fn vec_contains(v: &Vec<String>, s: &String) -> (b: bool)
    ensures
        b == v.deep_view().contains(s@),
{
    let n = v.len();
    let mut i: usize = 0;
    while i < n
        invariant
            0 <= i <= n,
            n == v@.len(),
            v.deep_view().len() == n,
            forall|k: int| 0 <= k < n ==> v.deep_view()[k] == v@[k]@,
            forall|k: int| 0 <= k < i ==> v.deep_view()[k] != s@,
        decreases n - i,
    {
        if v[i].eq(s) {
            assert(v.deep_view()[i as int] == s@);
            return true;
        }
        i = i + 1;
    }
    assert(!v.deep_view().contains(s@)) by {
        assert(forall|k: int| 0 <= k < v.deep_view().len() ==> v.deep_view()[k] != s@);
    }
    false
}

/// Scrape one fetched page: extract its help-tag URLs, and discover the new
/// same-domain links to visit, inserting each into `visited` at once.
///
/// The two passes are independent. The tag pass joins each matched element's
/// percent-encoded text as a fragment onto the page's resolved URL
/// `resolved` — the response URL after redirects, not the URL that was
/// requested. The link pass normalizes each href against `resolved` and
/// keeps those whose host is `domain` and which were never visited. An error
/// comes if and only if one of the two fixed selectors is invalid, and then
/// nothing changes.
pub fn scrape_page(
    resolved: &CrawlUrl,
    html: &str,
    domain: &String,
    visited: &mut VisitedSet,
) -> (r: Result<(ExtractionResult, Vec<CrawlUrl>), CrawlError>)
    ensures
        (r is Ok <==> sel_valid(help_tag_selector_spec()) && sel_valid(link_selector_spec())),
        (r is Err ==> final(visited)@ == old(visited)@ && r == Err::<
            (ExtractionResult, Vec<CrawlUrl>),
            CrawlError,
        >(CrawlError::InvalidSelector)),
        (r matches Ok((res, links)) ==> ({
            let (vf, nl) = link_pass(
                resolved@,
                domain@,
                old(visited)@,
                attr_values(html@, link_selector_spec(), "href"@),
            );
            &&& res.tag_set() == tags_spec(resolved@, inner_htmls(html@, help_tag_selector_spec()))
            &&& links.deep_view() == nl
            &&& final(visited)@ == vf
        })),
{
    if !selector_ok(help_tag_selector()) || !selector_ok(link_selector()) {
        return Err(CrawlError::InvalidSelector);
    }
    // Tag extraction pass.
    let texts = select_inner_htmls(html, help_tag_selector());
    let ghost tv = texts.deep_view();
    let n = texts.len();
    let mut tags: Vec<String> = Vec::new();
    let mut i: usize = 0;
    proof {
        assert(tv.take(0) =~= Seq::<Seq<char>>::empty());
        assert(tags.deep_view().to_set() =~= tags_spec(resolved@, tv.take(0)));
    }
    while i < n
        invariant
            0 <= i <= n,
            n == texts@.len(),
            tv == texts.deep_view(),
            tv == inner_htmls(html@, help_tag_selector_spec()),
            tv.len() == n,
            forall|k: int| 0 <= k < n ==> tv[k] == texts@[k]@,
            tags.deep_view().to_set() == tags_spec(resolved@, tv.take(i as int)),
            forall|a: int, b: int|
                0 <= a < b < tags@.len() ==> tags@[a]@ != tags@[b]@,
        decreases n - i,
    {
        let mut tag: String = resolved.text().clone();
        tag.append("#");
        let enc = encode_text(texts[i].as_str());
        tag.append(enc.as_str());
        let ghost tagv = tag@;
        proof {
            reveal_strlit("#");
            assert("#"@ =~= seq!['#']);
            assert(tagv =~= tag_of(resolved@, tv[i as int]));
            assert(tv.take(i + 1).drop_last() =~= tv.take(i as int));
            assert(tv.take(i + 1).last() == tv[i as int]);
        }
        let ghost old_tags = tags.deep_view();
        if !vec_contains(&tags, &tag) {
            tags.push(tag);
            proof {
                assert(tags.deep_view() =~= old_tags.push(tagv));
                assert forall|x: Seq<char>| tags.deep_view().to_set().contains(x)
                    <==> old_tags.to_set().insert(tagv).contains(x) by {
                    if tags.deep_view().contains(x) {
                        let w = choose|w: int|
                            0 <= w < tags.deep_view().len() && tags.deep_view()[w] == x;
                        if w < old_tags.len() {
                            assert(old_tags.contains(x));
                        }
                    }
                    if old_tags.contains(x) {
                        let w = choose|w: int| 0 <= w < old_tags.len() && old_tags[w] == x;
                        assert(tags.deep_view()[w] == x);
                    }
                    if x == tagv {
                        assert(tags.deep_view()[old_tags.len() as int] == x);
                    }
                }
                assert(tags.deep_view().to_set() =~= old_tags.to_set().insert(tagv));
                assert(forall|k: int|
                    0 <= k < tags@.len() ==> tags.deep_view()[k] == #[trigger] tags@[k]@);
                assert(forall|k: int|
                    0 <= k < old_tags.len() ==> old_tags.contains(#[trigger] old_tags[k]));
                assert(forall|k: int| 0 <= k < old_tags.len() ==> #[trigger] tags@[k]@ != tagv);
            }
        } else {
            proof {
                assert(old_tags.to_set().contains(tagv));
                assert(old_tags.to_set() =~= old_tags.to_set().insert(tagv));
            }
        }
        proof {
            assert(tags.deep_view().to_set() == tags_spec(resolved@, tv.take(i + 1)));
        }
        i = i + 1;
    }
    proof {
        assert(tv.take(n as int) =~= tv);
    }
    let result = ExtractionResult { tags };
    // Link discovery pass.
    let hrefs = select_attr_values(html, link_selector(), "href");
    let ghost hv = hrefs.deep_view();
    let ghost v0 = visited@;
    let m = hrefs.len();
    let mut links: Vec<CrawlUrl> = Vec::new();
    let mut j: usize = 0;
    proof {
        assert(hv.skip(0) =~= hv);
        assert(links.deep_view() + link_pass(resolved@, domain@, visited@, hv.skip(0)).1
            =~= link_pass(resolved@, domain@, v0, hv).1);
    }
    while j < m
        invariant
            0 <= j <= m,
            m == hrefs@.len(),
            hv == hrefs.deep_view(),
            hv == attr_values(html@, link_selector_spec(), "href"@),
            hv.len() == m,
            forall|k: int| 0 <= k < m ==> hv[k] == hrefs@[k]@,
            ({
                let (vf, nl) = link_pass(resolved@, domain@, visited@, hv.skip(j as int));
                link_pass(resolved@, domain@, v0, hv) == (vf, links.deep_view() + nl)
            }),
        decreases m - j,
    {
        proof {
            assert(hv.skip(j as int).len() > 0);
            assert(hv.skip(j as int)[0] == hv[j as int]);
            assert(hv.skip(j as int).drop_first() =~= hv.skip(j + 1));
        }
        let ghost links_before = links.deep_view();
        match normalize(resolved, hrefs[j].as_str()) {
            Ok(u) => {
                if u.host().eq(domain) {
                    let inserted = visited.check_and_insert(u.text());
                    if inserted {
                        let ghost uv = u@;
                        links.push(u);
                        proof {
                            assert(links.deep_view() =~= links_before.push(uv));
                            let (vf, nl) = link_pass(
                                resolved@,
                                domain@,
                                visited@,
                                hv.skip(j + 1),
                            );
                            assert(links_before + (seq![uv] + nl) =~= links_before.push(uv) + nl);
                        }
                    }
                }
            },
            Err(_) => {},
        }
        j = j + 1;
    }
    proof {
        assert(hv.skip(m as int) =~= Seq::<Seq<char>>::empty());
        let (vf, nl) = link_pass(resolved@, domain@, visited@, hv.skip(m as int));
        assert(links.deep_view() + nl =~= links.deep_view());
    }
    Ok((result, links))
}

} // verus!
