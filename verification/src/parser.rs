use vstd::prelude::*;
use crate::types::PipelineError;
use crate::text::{normalized_url, normalize_url, trim_of, trim_str};

verus! {

/// Capability contract for turning one page of raw content into an ordered
/// list of (resource url, label) pairs. Different sites get different
/// implementations.
pub trait PageParser: Send + Sync {
    /// Extract the (image url, image name) pairs listed on one page.
    fn parse_page(&self, html: &str) -> Result<Vec<(String, String)>, PipelineError>;

    /// The site's base url, used to resolve relative resource paths.
    fn base_url(&self) -> &str;
}

/// How the label of an item is read from the matched name element.
#[derive(Debug, Clone)]
pub enum NameExtraction {
    /// From the element's first text node, trimmed.
    TextContent,
    /// From the named attribute of the element, verbatim.
    Attribute(String),
}

/// A selector mapping describing where items, their image urls and their
/// labels sit inside a listing page.
#[derive(Debug, Clone)]
pub struct ParserConfig {
    /// Selects one element per listed item.
    pub container_selector: String,
    /// Selects the image element, relative to the container.
    pub image_selector: String,
    /// The attribute of the image element holding the url, usually `src`.
    pub image_attr: String,
    /// Selects the name element, relative to the container.
    pub name_selector: String,
    /// How the label is read from the name element.
    pub name_extraction: NameExtraction,
}

// ---------------------------------------------------------------------------
// The one trusted call into the html engine.
// ---------------------------------------------------------------------------

/// Whether scraper's Selector::parse accepts this selector text; a function
/// of the text alone.
pub uninterp spec fn selector_ok(sel: Seq<char>) -> bool;

/// What the selection step returns for one page: per container, the raw name
/// (text node or attribute, by `use_text`) and the raw image url attribute,
/// each absent when its element or attribute is missing. A function of the
/// arguments alone.
pub uninterp spec fn scraped_pairs(
    html: Seq<char>,
    container_sel: Seq<char>,
    image_sel: Seq<char>,
    image_attr: Seq<char>,
    name_sel: Seq<char>,
    use_text: bool,
    name_attr: Seq<char>,
) -> Seq<(Option<Seq<char>>, Option<Seq<char>>)>;

/// One raw extraction pair as mathematics.
pub open spec fn pair_view(p: (Option<String>, Option<String>)) -> (
    Option<Seq<char>>,
    Option<Seq<char>>,
) {
    (
        match p.0 {
            Some(s) => Some(s@),
            None => None,
        },
        match p.1 {
            Some(s) => Some(s@),
            None => None,
        },
    )
}

/// A raw extraction list as mathematics.
pub open spec fn pairs_view(v: Seq<(Option<String>, Option<String>)>) -> Seq<
    (Option<Seq<char>>, Option<Seq<char>>),
> {
    v.map_values(|p: (Option<String>, Option<String>)| pair_view(p))
}

/// Relies on scraper: Selector::parse to compile the three selectors (`None`
/// exactly when one of them is refused), Html::parse_document, and element
/// selection, text and attribute access to read, per container element, the
/// raw name and the raw image url. The result is a pure function of the
/// arguments; the name it is given here is what the parsing contracts below
/// build on.
#[verifier::external_body]
fn scrape_raw(
    html: &str,
    container_sel: &str,
    image_sel: &str,
    image_attr: &str,
    name_sel: &str,
    use_text: bool,
    name_attr: &str,
) -> (r: Option<Vec<(Option<String>, Option<String>)>>)
    ensures
        (r is Some) == (selector_ok(container_sel@) && selector_ok(image_sel@)
            && selector_ok(name_sel@)),
        r matches Some(v) ==> pairs_view(v@) == scraped_pairs(
            html@,
            container_sel@,
            image_sel@,
            image_attr@,
            name_sel@,
            use_text,
            name_attr@,
        ),
{
    let csel = scraper::Selector::parse(container_sel).ok()?;
    let isel = scraper::Selector::parse(image_sel).ok()?;
    let nsel = scraper::Selector::parse(name_sel).ok()?;
    let doc = scraper::Html::parse_document(html);
    Some(doc.select(&csel).map(|c| (
        c.select(&nsel).next().and_then(|e| if use_text {
            e.text().next().map(|t| t.to_string())
        } else {
            e.value().attr(name_attr).map(|t| t.to_string())
        }),
        c.select(&isel).next().and_then(|e| e.value().attr(image_attr)).map(|t| t.to_string()),
    )).collect())
}

// ---------------------------------------------------------------------------
// The verified assembly of raw extractions into items.
// ---------------------------------------------------------------------------

/// The label an item gets from its raw name: the trimmed text, the verbatim
/// attribute, or `unknown` when nothing was found.
pub open spec fn assembled_name(name: Option<Seq<char>>, use_text: bool) -> Seq<char> {
    match name {
        Some(t) => if use_text {
            trim_of(t)
        } else {
            t
        },
        None => "unknown"@,
    }
}

/// The items assembled from the raw extraction pairs: containers without an
/// image url are dropped, urls are made absolute against the base url, and
/// labels fall back to `unknown`.
pub open spec fn assembled_items(
    pairs: Seq<(Option<Seq<char>>, Option<Seq<char>>)>,
    base: Seq<char>,
    use_text: bool,
) -> Seq<(Seq<char>, Seq<char>)>
    decreases pairs.len(),
{
    if pairs.len() == 0 {
        Seq::empty()
    } else {
        let rest = assembled_items(pairs.drop_last(), base, use_text);
        let p = pairs.last();
        match p.1 {
            Some(u) => rest.push((normalized_url(u, base), assembled_name(p.0, use_text))),
            None => rest,
        }
    }
}

/// An item list as mathematics.
pub open spec fn items_view(v: Seq<(String, String)>) -> Seq<(Seq<char>, Seq<char>)> {
    v.map_values(|p: (String, String)| (p.0@, p.1@))
}

/// Assemble raw extraction pairs into (absolute url, label) items.
fn assemble_items(pairs: &Vec<(Option<String>, Option<String>)>, base_url: &str, use_text: bool)
    -> (r: Vec<(String, String)>)
    ensures
        items_view(r@) == assembled_items(pairs_view(pairs@), base_url@, use_text),
{
    let mut r: Vec<(String, String)> = Vec::new();
    let n = pairs.len();
    let mut i: usize = 0;
    while i < n
        invariant
            n == pairs@.len(),
            i <= n,
            items_view(r@) == assembled_items(pairs_view(pairs@).take(i as int), base_url@, use_text),
        decreases n - i,
    {
        proof {
            assert(pairs_view(pairs@).take(i + 1).drop_last() =~= pairs_view(pairs@).take(i as int));
            assert(pairs_view(pairs@).take(i + 1).last() == pair_view(pairs@[i as int]));
        }
        let p = &pairs[i];
        match &p.1 {
            Some(u) => {
                let full_url = normalize_url(u.as_str(), base_url);
                let name: String = match &p.0 {
                    Some(t) => if use_text {
                        trim_str(t.as_str())
                    } else {
                        t.clone()
                    },
                    None => "unknown".to_owned(),
                };
                let ghost before = items_view(r@);
                r.push((full_url, name));
                proof {
                    assert(items_view(r@) =~= before.push((full_url@, name@)));
                }
            }
            None => {
            }
        }
        i = i + 1;
    }
    proof {
        assert(pairs_view(pairs@).take(n as int) =~= pairs_view(pairs@));
    }
    r
}

/// What parsing one page returns for a given selector mapping: either the
/// assembled items, or a parse failure exactly when one of the selectors is
/// refused.
pub open spec fn parse_result_ok(config: ParserConfig) -> bool {
    selector_ok(config.container_selector@) && selector_ok(config.image_selector@) && selector_ok(
        config.name_selector@,
    )
}

/// Whether labels are read from text nodes under this mapping.
pub open spec fn config_uses_text(config: ParserConfig) -> bool {
    config.name_extraction is TextContent
}

/// The attribute labels are read from, where one is configured.
pub open spec fn config_name_attr(config: ParserConfig) -> Seq<char> {
    match config.name_extraction {
        NameExtraction::TextContent => ""@,
        NameExtraction::Attribute(a) => a@,
    }
}

/// The items parsing one page yields under a selector mapping.
pub open spec fn parsed_items(config: ParserConfig, base: Seq<char>, html: Seq<char>) -> Seq<
    (Seq<char>, Seq<char>),
> {
    assembled_items(
        scraped_pairs(
            html,
            config.container_selector@,
            config.image_selector@,
            config.image_attr@,
            config.name_selector@,
            config_uses_text(config),
            config_name_attr(config),
        ),
        base,
        config_uses_text(config),
    )
}

/// Parse one page under a selector mapping.
fn parse_with_config(config: &ParserConfig, base_url: &str, html: &str) -> (r: Result<
    Vec<(String, String)>,
    PipelineError,
>)
    ensures
        r is Ok <==> parse_result_ok(*config),
        r matches Ok(v) ==> items_view(v@) == parsed_items(*config, base_url@, html@),
        r matches Err(e) ==> e is Parse,
{
    let (use_text, name_attr): (bool, &str) = match &config.name_extraction {
        NameExtraction::TextContent => (true, ""),
        NameExtraction::Attribute(a) => (false, a.as_str()),
    };
    match scrape_raw(
        html,
        config.container_selector.as_str(),
        config.image_selector.as_str(),
        config.image_attr.as_str(),
        config.name_selector.as_str(),
        use_text,
        name_attr,
    ) {
        Some(pairs) => Ok(assemble_items(&pairs, base_url, use_text)),
        None => Err(PipelineError::Parse),
    }
}

// ---------------------------------------------------------------------------
// The configurable parser.
// ---------------------------------------------------------------------------

/// A parser driven entirely by a selector mapping, reusable across sites.
pub struct GenericParser {
    base_url: String,
    config: ParserConfig,
}

impl GenericParser {
    /// The site's base url.
    pub closed spec fn spec_base_url(&self) -> Seq<char> {
        self.base_url@
    }

    /// The selector mapping in use.
    pub closed spec fn spec_config(&self) -> ParserConfig {
        self.config
    }

    /// A parser for `base_url` driven by `config`.
    pub fn new(base_url: String, config: ParserConfig) -> (r: Self)
        ensures
            r.spec_base_url() == base_url@,
            r.spec_config() == config,
    {
        GenericParser { base_url, config }
    }

    /// The mapping of the memes.tw listing pages.
    pub fn memes_tw() -> (r: Result<Self, PipelineError>)
        ensures
            r matches Ok(p) && p.spec_base_url() == "https://memes.tw"@,
            r matches Ok(p) ==> {
                let c = p.spec_config();
                &&& c.container_selector@ == "div.-shadow.mt-3.mx-2.relative"@
                &&& c.image_selector@ == "a > img"@
                &&& c.image_attr@ == "src"@
                &&& c.name_selector@ == "header > b"@
                &&& c.name_extraction is TextContent
            },
    {
        let config = ParserConfig {
            container_selector: String::from_str("div.-shadow.mt-3.mx-2.relative"),
            image_selector: String::from_str("a > img"),
            image_attr: String::from_str("src"),
            name_selector: String::from_str("header > b"),
            name_extraction: NameExtraction::TextContent,
        };
        Ok(Self::new(String::from_str("https://memes.tw"), config))
    }

    /// A parser for another site, from its base url and mapping.
    pub fn custom_site(base_url: &str, config: ParserConfig) -> (r: Self)
        ensures
            r.spec_base_url() == base_url@,
            r.spec_config() == config,
    {
        Self::new(base_url.to_owned(), config)
    }

    /// Extract the (image url, image name) pairs listed on one page: the
    /// containers the mapping selects, their urls made absolute, their
    /// labels trimmed text or attribute values with `unknown` as fallback.
    /// Fails with a parse error exactly when a selector of the mapping is
    /// refused.
    pub fn parse_page(&self, html: &str) -> (r: Result<Vec<(String, String)>, PipelineError>)
        ensures
            r is Ok <==> parse_result_ok(self.spec_config()),
            r matches Ok(v) ==> items_view(v@) == parsed_items(
                self.spec_config(),
                self.spec_base_url(),
                html@,
            ),
            r matches Err(e) ==> e is Parse,
    {
        parse_with_config(&self.config, self.base_url.as_str(), html)
    }

    /// The site's base url.
    pub fn base_url(&self) -> (r: &str)
        ensures
            r@ == self.spec_base_url(),
    {
        self.base_url.as_str()
    }
}

impl PageParser for GenericParser {
    fn parse_page(&self, html: &str) -> Result<Vec<(String, String)>, PipelineError> {
        GenericParser::parse_page(self, html)
    }

    fn base_url(&self) -> &str {
        GenericParser::base_url(self)
    }
}

/// The parser for memes.tw listing pages, with its selector mapping built
/// in.
pub struct MemesTwParser {
    inner: GenericParser,
}

impl MemesTwParser {
    /// The built-in mapping of this parser.
    pub closed spec fn spec_config(&self) -> ParserConfig {
        self.inner.spec_config()
    }

    /// The site's base url.
    pub closed spec fn spec_base_url(&self) -> Seq<char> {
        self.inner.spec_base_url()
    }

    /// A parser for the memes.tw listing pages.
    pub fn new() -> (r: Result<Self, PipelineError>)
        ensures
            r matches Ok(p) && p.spec_base_url() == "https://memes.tw"@,
            r matches Ok(p) ==> {
                let c = p.spec_config();
                &&& c.container_selector@ == "div.-shadow.mt-3.mx-2.relative"@
                &&& c.image_selector@ == "a > img"@
                &&& c.image_attr@ == "src"@
                &&& c.name_selector@ == "header > b"@
                &&& c.name_extraction is TextContent
            },
    {
        match GenericParser::memes_tw() {
            Ok(inner) => Ok(MemesTwParser { inner }),
            Err(e) => Err(e),
        }
    }

    /// Extract the (image url, image name) pairs listed on one memes.tw
    /// page.
    pub fn parse_page(&self, html: &str) -> (r: Result<Vec<(String, String)>, PipelineError>)
        ensures
            r is Ok <==> parse_result_ok(self.spec_config()),
            r matches Ok(v) ==> items_view(v@) == parsed_items(
                self.spec_config(),
                self.spec_base_url(),
                html@,
            ),
            r matches Err(e) ==> e is Parse,
    {
        GenericParser::parse_page(&self.inner, html)
    }

    /// The site's base url.
    pub fn base_url(&self) -> (r: &str)
        ensures
            r@ == self.spec_base_url(),
    {
        GenericParser::base_url(&self.inner)
    }
}

impl PageParser for MemesTwParser {
    fn parse_page(&self, html: &str) -> Result<Vec<(String, String)>, PipelineError> {
        MemesTwParser::parse_page(self, html)
    }

    fn base_url(&self) -> &str {
        MemesTwParser::base_url(self)
    }
}

} // verus!
