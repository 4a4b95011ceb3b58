use vstd::prelude::*;

verus! {

/// Why a candidate link or seed was rejected.
#[derive(Clone, Copy, PartialEq, Eq, Structural, Debug)]
pub enum CrawlError {
    /// The string neither parses as an absolute URL nor resolves against the
    /// base URL as a relative reference.
    MalformedUrl,
    /// One of the fixed extraction selectors failed to compile; a
    /// configuration fault, surfaced before any page is scraped.
    InvalidSelector,
}

/// The decomposition of one parsed URL into plain values.
///
/// `serial` is the full serialization, `base` the serialization with the
/// fragment removed, `host` the host text (empty when the URL has no host),
/// and `fragment` the fragment text when one is present.
#[verifier::ext_equal]
pub struct UrlSpec {
    pub serial: Seq<char>,
    pub base: Seq<char>,
    pub host: Seq<char>,
    pub fragment: Option<Seq<char>>,
}

impl UrlSpec {
    /// The same URL with its fragment removed.
    pub open spec fn stripped(self) -> UrlSpec {
        UrlSpec { serial: self.base, base: self.base, host: self.host, fragment: None }
    }
}

/// What parsing a string as an absolute URL yields.
#[verifier::ext_equal]
pub enum ParseOutcome {
    /// The string parses; the parsed URL, decomposed.
    Absolute(UrlSpec),
    /// The string is a relative reference and needs a base to resolve against.
    RelativeNoBase,
    /// The string parses in no way at all.
    Invalid,
}

/// What `url::Url::parse` returns on `raw`, decomposed into plain values.
/// The outcome depends on the characters of `raw` alone.
pub uninterp spec fn parse_outcome(raw: Seq<char>) -> ParseOutcome;

/// What `url::Url::join` returns when a relative reference `raw` is resolved
/// against the URL whose serialization is `base`: the resolved URL,
/// decomposed, or `None` when resolution fails. The outcome depends on the
/// two character sequences alone.
pub uninterp spec fn join_outcome(base: Seq<char>, raw: Seq<char>) -> Option<UrlSpec>;

/// A parsed URL handed back by the `url` crate, as plain strings.
pub struct RawParsed {
    pub serial: String,
    pub base: String,
    pub host: String,
    pub fragment: Option<String>,
}

impl View for RawParsed {
    type V = UrlSpec;

    open spec fn view(&self) -> UrlSpec {
        UrlSpec {
            serial: self.serial@,
            base: self.base@,
            host: self.host@,
            fragment: match self.fragment {
                Some(f) => Some(f@),
                None => None,
            },
        }
    }
}

/// The result of trying to parse a string as an absolute URL.
pub enum ParseAttempt {
    Absolute(RawParsed),
    RelativeNoBase,
    Invalid,
}

impl View for ParseAttempt {
    type V = ParseOutcome;

    open spec fn view(&self) -> ParseOutcome {
        match self {
            ParseAttempt::Absolute(p) => ParseOutcome::Absolute(p@),
            ParseAttempt::RelativeNoBase => ParseOutcome::RelativeNoBase,
            ParseAttempt::Invalid => ParseOutcome::Invalid,
        }
    }
}

/// Relies on `url::Url::parse`, and on `Url::as_str`, `Url::host_str`,
/// `Url::fragment` and `Url::set_fragment` to read the parsed URL back as
/// plain strings.
///
/// The `url` crate keeps the invariant that parsing the serialization of a
/// `Url` reproduces that `Url` (`Url::check_invariants`), and
/// `set_fragment(None)` removes exactly the fragment; a parsed URL whose
/// fragment is `None` serializes without any `#` suffix, so re-parsing the
/// fragment-free serialization yields the fragment-free URL: the second
/// clause. The third and fourth clauses restate how the serialization is laid
/// out (`Url::fragment` reads the text after the final `#`; with a host
/// present the path is not opaque, so nothing besides the fragment differs).
#[verifier::external_body]
fn parse_raw(raw: &str) -> (r: ParseAttempt)
    ensures
        r@ == parse_outcome(raw@),
        (r@ matches ParseOutcome::Absolute(u) ==> parse_outcome(u.base) == ParseOutcome::Absolute(
            u.stripped(),
        )),
        (r@ matches ParseOutcome::Absolute(u) ==> (u.host.len() > 0 ==> (u.fragment matches Some(
            f,
        ) ==> u.serial == u.base + seq!['#'] + f))),
        (r@ matches ParseOutcome::Absolute(u) ==> (u.fragment is None ==> u.serial == u.base)),
{
    match url::Url::parse(raw) {
        Ok(mut u) => {
            let serial = u.as_str().to_string();
            let host = u.host_str().unwrap_or("").to_string();
            let fragment = u.fragment().map(|f| f.to_string());
            u.set_fragment(None);
            ParseAttempt::Absolute(RawParsed { serial, base: u.as_str().to_string(), host, fragment })
        }
        Err(url::ParseError::RelativeUrlWithoutBase) => ParseAttempt::RelativeNoBase,
        Err(_) => ParseAttempt::Invalid,
    }
}

/// Relies on `url::Url::join` for RFC 3986 relative-reference resolution,
/// after `url::Url::parse` rebuilds the base URL from its serialization; the
/// result is read back as in `parse_raw`, and the same `url` crate
/// round-trip invariant gives the second clause.
#[verifier::external_body]
fn join_raw(base: &str, raw: &str) -> (r: Option<RawParsed>)
    requires
        parse_outcome(base@) is Absolute,
    ensures
        (r matches Some(p) ==> join_outcome(base@, raw@) == Some(p@)),
        (r is None ==> join_outcome(base@, raw@) is None),
        (r matches Some(p) ==> parse_outcome(p@.base) == ParseOutcome::Absolute(p@.stripped())),
        (r matches Some(p) ==> (p@.fragment is None ==> p@.serial == p@.base)),
{
    let b = url::Url::parse(base).expect("the base was parsed once already");
    match b.join(raw) {
        Ok(mut u) => {
            let serial = u.as_str().to_string();
            let host = u.host_str().unwrap_or("").to_string();
            let fragment = u.fragment().map(|f| f.to_string());
            u.set_fragment(None);
            Some(RawParsed { serial, base: u.as_str().to_string(), host, fragment })
        }
        Err(_) => None,
    }
}

/// An absolute, fragment-stripped URL: the unit of crawl identity.
#[verifier::ext_equal]
pub struct CrawlSpec {
    pub text: Seq<char>,
    pub host: Seq<char>,
}

/// An absolute, fragment-stripped URL, as the crawler holds it: its
/// normalized text and its host (empty when the URL has none).
pub struct CrawlUrl {
    text: String,
    host: String,
}

impl View for CrawlUrl {
    type V = CrawlSpec;

    closed spec fn view(&self) -> CrawlSpec {
        CrawlSpec { text: self.text@, host: self.host@ }
    }
}

impl DeepView for CrawlUrl {
    type V = CrawlSpec;

    open spec fn deep_view(&self) -> CrawlSpec {
        self.view()
    }
}

/// What normalizing `raw` against the absolute fragment-free URL `base`
/// yields: the parsed URL when `raw` is absolute, the resolved URL when it
/// is a relative reference, and an error otherwise — always with the
/// fragment stripped.
pub open spec fn norm_spec(base: Seq<char>, raw: Seq<char>) -> Result<CrawlSpec, CrawlError> {
    match parse_outcome(raw) {
        ParseOutcome::Absolute(u) => Ok(CrawlSpec { text: u.base, host: u.host }),
        ParseOutcome::RelativeNoBase => match join_outcome(base, raw) {
            Some(u) => Ok(CrawlSpec { text: u.base, host: u.host }),
            None => Err(CrawlError::MalformedUrl),
        },
        ParseOutcome::Invalid => Err(CrawlError::MalformedUrl),
    }
}

impl CrawlUrl {
    /// Every `CrawlUrl` is a fixpoint of normalization: its text parses as an
    /// absolute URL with no fragment, equal to itself.
    #[verifier::type_invariant]
    pub closed spec fn wf(self) -> bool {
        parse_outcome(self.text@) == ParseOutcome::Absolute(
            UrlSpec { serial: self.text@, base: self.text@, host: self.host@, fragment: None },
        )
    }

    /// The normalized text of the URL.
    pub fn text(&self) -> (r: &String)
        ensures
            r@ == self@.text,
    {
        &self.text
    }

    /// The host of the URL; empty when it has none.
    pub fn host(&self) -> (r: &String)
        ensures
            r@ == self@.host,
    {
        &self.host
    }

    /// Parse a seed URL, which must be absolute; its fragment is stripped.
    pub fn from_absolute(raw: &str) -> (r: Result<CrawlUrl, CrawlError>)
        ensures
            (parse_outcome(raw@) matches ParseOutcome::Absolute(u) ==> r matches Ok(c) && c@
                == (CrawlSpec { text: u.base, host: u.host })),
            (!(parse_outcome(raw@) is Absolute) ==> r == Err::<CrawlUrl, CrawlError>(
                CrawlError::MalformedUrl,
            )),
            (r matches Ok(c) ==> forall|b: Seq<char>| #[trigger] norm_spec(b, c@.text) == Ok::<
                CrawlSpec,
                CrawlError,
            >(c@)),
    {
        match parse_raw(raw) {
            ParseAttempt::Absolute(p) => {
                let c = CrawlUrl { text: p.base, host: p.host };
                Ok(c)
            }
            ParseAttempt::RelativeNoBase => Err(CrawlError::MalformedUrl),
            ParseAttempt::Invalid => Err(CrawlError::MalformedUrl),
        }
    }
}

impl Clone for CrawlUrl {
    fn clone(&self) -> (r: Self)
        ensures
            r@ == self@,
    {
        proof {
            use_type_invariant(self);
        }
        CrawlUrl { text: self.text.clone(), host: self.host.clone() }
    }
}

/// Fragment stripping, at the type level: the text of every `CrawlUrl`
/// parses as an absolute URL that carries no fragment and whose serialization
/// is that text itself — crawl identity never includes a fragment.
/// `c.wf()` holds of every `CrawlUrl` value, as its type invariant; callers
/// obtain it with `use_type_invariant`.
pub proof fn lemma_crawl_url_fragment_free(c: &CrawlUrl)
    requires
        c.wf(),
    ensures
        parse_outcome(c@.text) == ParseOutcome::Absolute(
            UrlSpec { serial: c@.text, base: c@.text, host: c@.host, fragment: None },
        ),
{
}

/// Normalize a candidate link `raw` against the absolute URL `base`:
/// use `raw` directly when it parses as an absolute URL, resolve it against
/// `base` when it is a relative reference, and reject it otherwise; the
/// fragment of the result is always stripped.
///
/// The second clause is the idempotence law: a returned URL normalizes to
/// itself against every base. The third is the fragment-stripping law: when
/// `raw` parses absolutely with a fragment (and has a host), the result is
/// exactly the prefix of `raw`'s serialization in front of the `#`.
pub fn normalize(base: &CrawlUrl, raw: &str) -> (r: Result<CrawlUrl, CrawlError>)
    ensures
        (match r {
            Ok(c) => norm_spec(base@.text, raw@) == Ok::<CrawlSpec, CrawlError>(c@),
            Err(e) => norm_spec(base@.text, raw@) == Err::<CrawlSpec, CrawlError>(e),
        }),
        (r matches Ok(c) ==> forall|b: Seq<char>| #[trigger] norm_spec(b, c@.text) == Ok::<
            CrawlSpec,
            CrawlError,
        >(c@)),
        (parse_outcome(raw@) matches ParseOutcome::Absolute(u) ==> (u.host.len() > 0 ==> (
        u.fragment matches Some(f) ==> (r matches Ok(c) && u.serial == c@.text + seq!['#'] + f)))),
{
    proof {
        use_type_invariant(base);
    }
    match parse_raw(raw) {
        ParseAttempt::Absolute(p) => {
            let c = CrawlUrl { text: p.base, host: p.host };
            Ok(c)
        }
        ParseAttempt::RelativeNoBase => {
            match join_raw(&base.text, raw) {
                Some(p) => {
                    let c = CrawlUrl { text: p.base, host: p.host };
                    Ok(c)
                }
                None => Err(CrawlError::MalformedUrl),
            }
        }
        ParseAttempt::Invalid => Err(CrawlError::MalformedUrl),
    }
}

} // verus!
