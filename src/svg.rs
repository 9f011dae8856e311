//! Reading the paths of an SVG document: which attributes belong to which
//! path, and how colours are read.
use vstd::prelude::*;
use crate::geometry::{PathInput, Segment};
use crate::model::Rgb;
use xmlparser::{ElementEnd, Token, Tokenizer};

verus! {

/// How an element's tag ends.
#[derive(Clone, Copy, Debug, PartialEq, Eq, Structural)]
pub enum EndKind {
    /// `>`: the element stays open for its children.
    Open,
    /// `</name>`: the open element closes.
    Close,
    /// `/>`: the element closes at once.
    Empty,
}

/// One token of an SVG document, as far as path reading needs it.
#[derive(Clone, Debug, PartialEq)]
pub enum SvgToken {
    /// The start of an element, with its local name.
    ElementStart(String),
    /// An attribute of the element being started.
    Attribute { name: String, value: String },
    /// The end of a start tag, or a closing tag.
    ElementEnd(EndKind),
    /// Anything else: declarations, comments, text.
    Other,
}

/// The tokens of an SVG document, or `None` when the tokenizer rejects it.
pub uninterp spec fn svg_tokens(text: Seq<char>) -> Option<Seq<SvgToken>>;

/// Relies on xmlparser's `Tokenizer`: the document's tokens in order, or the
/// tokenizer's error message.
#[verifier::external_body]
pub(crate) fn tokenize(text: &str) -> (r: Result<Vec<SvgToken>, String>)
    ensures
        r matches Ok(v) ==> svg_tokens(text@) == Some(v@),
        r is Err ==> svg_tokens(text@) is None,
{
    let mut out = Vec::new();
    for token in Tokenizer::from(text) {
        out.push(match token.map_err(|e| e.to_string())? {
            Token::ElementStart { local, .. } => SvgToken::ElementStart(local.to_string()),
            Token::Attribute { local, value, .. } => SvgToken::Attribute { name: local.to_string(), value: value.to_string() },
            Token::ElementEnd { end: ElementEnd::Open, .. } => SvgToken::ElementEnd(EndKind::Open),
            Token::ElementEnd { end: ElementEnd::Close(..), .. } => SvgToken::ElementEnd(EndKind::Close),
            Token::ElementEnd { end: ElementEnd::Empty, .. } => SvgToken::ElementEnd(EndKind::Empty),
            _ => SvgToken::Other,
        });
    }
    Ok(out)
}

/// The colour a CSS colour text denotes, if it denotes one.
pub uninterp spec fn color_of(text: Seq<char>) -> Option<Rgb>;

/// Relies on svgtypes' `Color::from_str`: the red, green and blue channels
/// of a CSS colour; its alpha is not used.
#[verifier::external_body]
pub(crate) fn parse_color(text: &str) -> (r: Option<Rgb>)
    ensures
        r == color_of(text@),
{
    <svgtypes::Color as std::str::FromStr>::from_str(text).ok().map(|c| Rgb { r: c.red, g: c.green, b: c.blue })
}

/// The attributes of one path element, as written.
#[derive(Clone, Debug, PartialEq)]
pub struct PathSource {
    /// The path commands (`d`).
    pub data: String,
    /// The path's own transform.
    pub transform: Option<String>,
    /// The transform of the innermost enclosing element that has one,
    /// applied after the path's own.
    pub group_transform: Option<String>,
    pub fill: Option<String>,
    pub fill_opacity: Option<String>,
    pub stroke: Option<String>,
    pub stroke_width: Option<String>,
    pub stroke_opacity: Option<String>,
}

/// The attributes of the path being read.
#[derive(Clone, Debug, PartialEq)]
pub struct PathAttributes {
    pub transform: Option<String>,
    pub data: Option<String>,
    pub fill: Option<String>,
    pub fill_opacity: Option<String>,
    pub stroke: Option<String>,
    pub stroke_width: Option<String>,
    pub stroke_opacity: Option<String>,
}

pub open spec fn no_attributes() -> PathAttributes {
    PathAttributes {
        transform: None,
        data: None,
        fill: None,
        fill_opacity: None,
        stroke: None,
        stroke_width: None,
        stroke_opacity: None,
    }
}

/// The reader's state between tokens: whether a path's start tag is being
/// read, its attributes, and the transform of each open element, outermost
/// first.
pub struct ReaderState {
    pub in_path: bool,
    pub attributes: PathAttributes,
    pub scopes: Seq<Option<String>>,
}

pub open spec fn initial_state() -> ReaderState {
    ReaderState { in_path: false, attributes: no_attributes(), scopes: seq![] }
}

/// The attribute names the reader knows.
#[derive(Clone, Copy, Debug, PartialEq, Eq, Structural)]
pub enum AttributeName {
    Transform,
    Data,
    Fill,
    FillOpacity,
    Stroke,
    StrokeWidth,
    StrokeOpacity,
    Unknown,
}

pub open spec fn attribute_name(n: Seq<char>) -> AttributeName {
    if n == seq!['t', 'r', 'a', 'n', 's', 'f', 'o', 'r', 'm'] {
        AttributeName::Transform
    } else if n == seq!['d'] {
        AttributeName::Data
    } else if n == seq!['f', 'i', 'l', 'l'] {
        AttributeName::Fill
    } else if n == seq!['f', 'i', 'l', 'l', '-', 'o', 'p', 'a', 'c', 'i', 't', 'y'] {
        AttributeName::FillOpacity
    } else if n == seq!['s', 't', 'r', 'o', 'k', 'e'] {
        AttributeName::Stroke
    } else if n == seq!['s', 't', 'r', 'o', 'k', 'e', '-', 'w', 'i', 'd', 't', 'h'] {
        AttributeName::StrokeWidth
    } else if n == seq!['s', 't', 'r', 'o', 'k', 'e', '-', 'o', 'p', 'a', 'c', 'i', 't', 'y'] {
        AttributeName::StrokeOpacity
    } else {
        AttributeName::Unknown
    }
}

pub open spec fn path_element_name() -> Seq<char> {
    seq!['p', 'a', 't', 'h']
}

/// A path's attributes after one more attribute.
pub open spec fn with_attribute(a: PathAttributes, name: AttributeName, value: String) -> PathAttributes {
    match name {
        AttributeName::Transform => PathAttributes { transform: Some(value), ..a },
        AttributeName::Data => PathAttributes { data: Some(value), ..a },
        AttributeName::Fill => PathAttributes { fill: Some(value), ..a },
        AttributeName::FillOpacity => PathAttributes { fill_opacity: Some(value), ..a },
        AttributeName::Stroke => PathAttributes { stroke: Some(value), ..a },
        AttributeName::StrokeWidth => PathAttributes { stroke_width: Some(value), ..a },
        AttributeName::StrokeOpacity => PathAttributes { stroke_opacity: Some(value), ..a },
        AttributeName::Unknown => a,
    }
}

/// The innermost transform among the open elements.
pub open spec fn innermost(scopes: Seq<Option<String>>) -> Option<String>
    decreases scopes.len(),
{
    if scopes.len() == 0 {
        None
    } else {
        match scopes.last() {
            Some(t) => Some(t),
            None => innermost(scopes.drop_last()),
        }
    }
}

/// The state after one token: every element opens a scope and a path starts
/// afresh; a transform belongs to the path being read or else to the element
/// being started; the end of a path's start tag closes the path; `/>` and
/// closing tags close a scope.
pub open spec fn next_state(st: ReaderState, t: SvgToken) -> ReaderState {
    match t {
        SvgToken::ElementStart(name) => if name@ == path_element_name() {
            ReaderState { in_path: true, attributes: no_attributes(), scopes: st.scopes.push(None) }
        } else {
            ReaderState { scopes: st.scopes.push(None), ..st }
        },
        SvgToken::Attribute { name, value } => {
            let n = attribute_name(name@);
            if st.in_path {
                ReaderState { attributes: with_attribute(st.attributes, n, value), ..st }
            } else if n == AttributeName::Transform && st.scopes.len() > 0 {
                ReaderState { scopes: st.scopes.update(st.scopes.len() - 1, Some(value)), ..st }
            } else {
                st
            }
        },
        SvgToken::ElementEnd(kind) => {
            let scopes = if kind != EndKind::Open && st.scopes.len() > 0 { st.scopes.drop_last() } else { st.scopes };
            if st.in_path {
                ReaderState { in_path: false, attributes: PathAttributes { data: None, ..st.attributes }, scopes: scopes }
            } else {
                ReaderState { scopes: scopes, ..st }
            }
        },
        SvgToken::Other => st,
    }
}

/// The path a token completes: the end of a path's start tag, when the path
/// has commands.
pub open spec fn completed(st: ReaderState, t: SvgToken) -> Option<PathSource> {
    match (t, st.attributes.data) {
        (SvgToken::ElementEnd(_), Some(d)) => if st.in_path {
            Some(PathSource {
                data: d,
                transform: st.attributes.transform,
                group_transform: innermost(st.scopes),
                fill: st.attributes.fill,
                fill_opacity: st.attributes.fill_opacity,
                stroke: st.attributes.stroke,
                stroke_width: st.attributes.stroke_width,
                stroke_opacity: st.attributes.stroke_opacity,
            })
        } else {
            None
        },
        _ => None,
    }
}

/// The state after a sequence of tokens.
pub open spec fn state_after(tokens: Seq<SvgToken>) -> ReaderState
    decreases tokens.len(),
{
    if tokens.len() == 0 {
        initial_state()
    } else {
        next_state(state_after(tokens.drop_last()), tokens.last())
    }
}

/// The paths a sequence of tokens holds, in document order.
pub open spec fn paths_of(tokens: Seq<SvgToken>) -> Seq<PathSource>
    decreases tokens.len(),
{
    if tokens.len() == 0 {
        seq![]
    } else {
        let before = paths_of(tokens.drop_last());
        match completed(state_after(tokens.drop_last()), tokens.last()) {
            Some(p) => before.push(p),
            None => before,
        }
    }
}

fn name_is(s: &String, lit: &str) -> (r: bool)
    ensures
        r == (s@ == lit@),
{
    *s == String::from_str(lit)
}

fn classify(n: &String) -> (r: AttributeName)
    ensures
        r == attribute_name(n@),
{
    proof {
        reveal_strlit("transform");
        reveal_strlit("d");
        reveal_strlit("fill");
        reveal_strlit("fill-opacity");
        reveal_strlit("stroke");
        reveal_strlit("stroke-width");
        reveal_strlit("stroke-opacity");
    }
    assert("transform"@ =~= seq!['t', 'r', 'a', 'n', 's', 'f', 'o', 'r', 'm']);
    assert("d"@ =~= seq!['d']);
    assert("fill"@ =~= seq!['f', 'i', 'l', 'l']);
    assert("fill-opacity"@ =~= seq!['f', 'i', 'l', 'l', '-', 'o', 'p', 'a', 'c', 'i', 't', 'y']);
    assert("stroke"@ =~= seq!['s', 't', 'r', 'o', 'k', 'e']);
    assert("stroke-width"@ =~= seq!['s', 't', 'r', 'o', 'k', 'e', '-', 'w', 'i', 'd', 't', 'h']);
    assert("stroke-opacity"@ =~= seq!['s', 't', 'r', 'o', 'k', 'e', '-', 'o', 'p', 'a', 'c', 'i', 't', 'y']);
    if name_is(n, "transform") {
        AttributeName::Transform
    } else if name_is(n, "d") {
        AttributeName::Data
    } else if name_is(n, "fill") {
        AttributeName::Fill
    } else if name_is(n, "fill-opacity") {
        AttributeName::FillOpacity
    } else if name_is(n, "stroke") {
        AttributeName::Stroke
    } else if name_is(n, "stroke-width") {
        AttributeName::StrokeWidth
    } else if name_is(n, "stroke-opacity") {
        AttributeName::StrokeOpacity
    } else {
        AttributeName::Unknown
    }
}

fn copy_text(o: &Option<String>) -> (r: Option<String>)
    ensures
        r == *o,
{
    match o {
        Some(s) => Some(s.clone()),
        None => None,
    }
}

fn set_attribute(a: &mut PathAttributes, name: AttributeName, value: String)
    ensures
        *final(a) == with_attribute(*old(a), name, value),
{
    match name {
        AttributeName::Transform => a.transform = Some(value),
        AttributeName::Data => a.data = Some(value),
        AttributeName::Fill => a.fill = Some(value),
        AttributeName::FillOpacity => a.fill_opacity = Some(value),
        AttributeName::Stroke => a.stroke = Some(value),
        AttributeName::StrokeWidth => a.stroke_width = Some(value),
        AttributeName::StrokeOpacity => a.stroke_opacity = Some(value),
        AttributeName::Unknown => {},
    }
}

fn innermost_of(scopes: &Vec<Option<String>>) -> (r: Option<String>)
    ensures
        r == innermost(scopes@),
{
    let mut k: usize = scopes.len();
    proof {
        assert(scopes@.subrange(0, k as int) =~= scopes@);
    }
    while k > 0
        invariant
            0 <= k <= scopes@.len(),
            innermost(scopes@) == innermost(scopes@.subrange(0, k as int)),
        decreases k,
    {
        proof {
            assert(scopes@.subrange(0, k as int).drop_last() =~= scopes@.subrange(0, k - 1));
        }
        if let Some(t) = &scopes[k - 1] {
            return Some(t.clone());
        }
        k -= 1;
    }
    proof {
        assert(scopes@.subrange(0, 0) =~= Seq::<Option<String>>::empty());
    }
    None
}

/// Reads the paths out of a document's tokens.
pub fn collect_paths(tokens: &Vec<SvgToken>) -> (r: Vec<PathSource>)
    ensures
        r@ == paths_of(tokens@),
{
    let mut in_path = false;
    let mut attrs = PathAttributes {
        transform: None,
        data: None,
        fill: None,
        fill_opacity: None,
        stroke: None,
        stroke_width: None,
        stroke_opacity: None,
    };
    let mut scopes: Vec<Option<String>> = Vec::new();
    let mut out: Vec<PathSource> = Vec::new();
    let mut i: usize = 0;
    proof {
        assert(tokens@.subrange(0, 0) =~= Seq::<SvgToken>::empty());
        assert(scopes@ =~= Seq::<Option<String>>::empty());
    }
    while i < tokens.len()
        invariant
            0 <= i <= tokens.len(),
            (ReaderState { in_path: in_path, attributes: attrs, scopes: scopes@ }) == state_after(tokens@.subrange(0, i as int)),
            out@ == paths_of(tokens@.subrange(0, i as int)),
        decreases tokens.len() - i,
    {
        proof {
            assert(tokens@.subrange(0, i + 1).drop_last() =~= tokens@.subrange(0, i as int));
            assert(tokens@.subrange(0, i + 1).last() == tokens@[i as int]);
        }
        let ghost before = scopes@;
        match &tokens[i] {
            SvgToken::ElementStart(name) => {
                proof {
                    reveal_strlit("path");
                    assert("path"@ =~= path_element_name());
                }
                if name_is(name, "path") {
                    in_path = true;
                    attrs = PathAttributes {
                        transform: None,
                        data: None,
                        fill: None,
                        fill_opacity: None,
                        stroke: None,
                        stroke_width: None,
                        stroke_opacity: None,
                    };
                }
                scopes.push(None);
            },
            SvgToken::Attribute { name, value } => {
                let n = classify(name);
                if in_path {
                    set_attribute(&mut attrs, n, value.clone());
                } else if n == AttributeName::Transform && scopes.len() > 0 {
                    let last = scopes.len() - 1;
                    scopes.set(last, Some(value.clone()));
                }
            },
            SvgToken::ElementEnd(kind) => {
                if in_path {
                    if let Some(d) = attrs.data.take() {
                        out.push(PathSource {
                            data: d,
                            transform: copy_text(&attrs.transform),
                            group_transform: innermost_of(&scopes),
                            fill: copy_text(&attrs.fill),
                            fill_opacity: copy_text(&attrs.fill_opacity),
                            stroke: copy_text(&attrs.stroke),
                            stroke_width: copy_text(&attrs.stroke_width),
                            stroke_opacity: copy_text(&attrs.stroke_opacity),
                        });
                    }
                    in_path = false;
                }
                if *kind != EndKind::Open && scopes.len() > 0 {
                    scopes.pop();
                    proof {
                        assert(scopes@ =~= before.drop_last());
                    }
                }
            },
            SvgToken::Other => {},
        }
        i += 1;
    }
    proof {
        assert(tokens@.subrange(0, tokens@.len() as int) =~= tokens@);
    }
    out
}

/// Reads the paths of an SVG document; `Err` carries the tokenizer's message.
pub fn read_svg_paths(text: &str) -> (r: Result<Vec<PathSource>, String>)
    ensures
        svg_tokens(text@) matches Some(ts) ==> (r matches Ok(v) && v@ == paths_of(ts)),
        svg_tokens(text@) is None ==> r is Err,
{
    let tokens = tokenize(text)?;
    Ok(collect_paths(&tokens))
}

/// Builds the compiler's input for a path: fill and stroke colours are read
/// from the path's attributes (a colour that does not parse, `none`
/// included, means no fill or no stroke).
pub fn path_input(
    src: &PathSource,
    fill_opacity: i32,
    stroke_opacity: i32,
    stroke_width: u16,
    segments: Vec<Segment>,
) -> (r: PathInput)
    ensures
        r.fill == (match src.fill {
            Some(f) => color_of(f@),
            None => None,
        }),
        r.stroke == (match src.stroke {
            Some(s) => color_of(s@),
            None => None,
        }),
        r.fill_opacity == fill_opacity,
        r.stroke_opacity == stroke_opacity,
        r.stroke_width == stroke_width,
        r.segments == segments,
{
    let fill = match &src.fill {
        Some(f) => parse_color(f.as_str()),
        None => None,
    };
    let stroke = match &src.stroke {
        Some(s) => parse_color(s.as_str()),
        None => None,
    };
    PathInput { fill, fill_opacity, stroke, stroke_opacity, stroke_width, segments }
}

} // verus!
