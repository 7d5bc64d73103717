//! Markdown rendering.
//!
//! A page renders to an HTML fragment in three steps: the markdown is
//! parsed into an event stream, the stream is transformed — bracketed
//! references whose text is a page identifier become links to the page,
//! fenced code blocks are replaced by syntax-highlighted HTML — and the
//! transformed stream is written out as HTML. Parsing, highlighting and
//! HTML writing come from outside crates behind trusted wrappers; the
//! link resolution and the code-block state machine that decides the
//! fate of every event are verified.

use crate::page_id::{is_id_text, PageId};
use vstd::prelude::*;

verus! {

/// What the render plan reads off one markdown event: the start of a
/// fenced code block with its info string, the end of a code block, a
/// text node, or anything else.
pub enum MdKind {
    CodeStart(String),
    CodeEnd,
    Text(String),
    Other,
}

/// What becomes of one event: passed through, dropped, or replaced by
/// highlighted HTML for the given info string and text.
pub enum RenderAction {
    Keep,
    Drop,
    Highlight(String, String),
}

/// The info string pending after a prefix of events: set by a fenced
/// code block start and consumed by the next text node.
pub open spec fn pending_after(kinds: Seq<MdKind>) -> Option<Seq<char>>
    decreases kinds.len(),
{
    if kinds.len() == 0 {
        None
    } else {
        match kinds.last() {
            MdKind::CodeStart(info) => Some(info@),
            MdKind::Text(_) => None,
            MdKind::CodeEnd => pending_after(kinds.drop_last()),
            MdKind::Other => pending_after(kinds.drop_last()),
        }
    }
}

/// The action owed to an event, given the pending info string: code
/// block delimiters are dropped, a text node under a pending info string
/// is highlighted with it, everything else passes through.
pub open spec fn action_matches(a: RenderAction, k: MdKind, pending: Option<Seq<char>>) -> bool {
    match k {
        MdKind::CodeStart(_) => a is Drop,
        MdKind::CodeEnd => a is Drop,
        MdKind::Text(t) => match pending {
            Some(info) => match a {
                RenderAction::Highlight(i2, t2) => i2@ == info && t2@ == t@,
                _ => false,
            },
            None => a is Keep,
        },
        MdKind::Other => a is Keep,
    }
}

/// Decide the fate of every event in the stream: the verified core of
/// the renderer's code-block interception.
pub fn plan_render(kinds: &Vec<MdKind>) -> (r: Vec<RenderAction>)
    ensures
        r@.len() == kinds@.len(),
        forall|i: int|
            0 <= i < kinds@.len() ==> action_matches(
                #[trigger] r@[i],
                kinds@[i],
                pending_after(kinds@.take(i)),
            ),
{
    let n = kinds.len();
    let mut r: Vec<RenderAction> = Vec::new();
    let mut pending: Option<String> = None;
    let mut i: usize = 0;
    while i < n
        invariant
            i <= n,
            n == kinds@.len(),
            r@.len() == i,
            (match pending {
                Some(p) => pending_after(kinds@.take(i as int)) == Some(p@),
                None => pending_after(kinds@.take(i as int)) is None,
            }),
            forall|j: int|
                0 <= j < i ==> action_matches(
                    #[trigger] r@[j],
                    kinds@[j],
                    pending_after(kinds@.take(j)),
                ),
        decreases n - i,
    {
        proof {
            assert(kinds@.take(i + 1).drop_last() =~= kinds@.take(i as int));
            assert(kinds@.take(i + 1).last() == kinds@[i as int]);
        }
        match &kinds[i] {
            MdKind::CodeStart(info) => {
                pending = Some(info.clone());
                r.push(RenderAction::Drop);
            },
            MdKind::CodeEnd => {
                r.push(RenderAction::Drop);
            },
            MdKind::Text(t) => {
                let p = pending;
                pending = None;
                match p {
                    Some(info) => {
                        r.push(RenderAction::Highlight(info, t.clone()));
                    },
                    None => {
                        r.push(RenderAction::Keep);
                    },
                }
            },
            MdKind::Other => {
                r.push(RenderAction::Keep);
            },
        }
        i += 1;
    }
    r
}

/// Resolve one bracketed reference: when its text is the text form of a
/// page identifier, it becomes a link whose target is `/` followed by
/// the identifier and whose title is the identifier; anything else stays
/// unresolved.
pub fn resolve_wiki_link(reference: &str) -> (r: Option<(String, String)>)
    ensures
        r is Some <==> is_id_text(reference@),
        match r {
            Some(pair) => pair.0@ == seq!['/'] + reference@ && pair.1@ == reference@,
            None => true,
        },
{
    match PageId::parse(reference) {
        Some(id) => {
            proof {
                reveal_strlit("/");
            }
            let text = id.to_text();
            let mut url = String::new();
            url.append("/");
            url.append(text.as_str());
            proof {
                assert(url@ =~= seq!['/'] + reference@);
            }
            Some((url, text))
        },
        None => None,
    }
}

#[verifier::external_type_specification]
#[verifier::external_body]
pub struct ExEvent<'a>(pulldown_cmark::Event<'a>);

#[verifier::external_type_specification]
#[verifier::external_body]
pub struct ExSyntaxSet(syntect::parsing::SyntaxSet);

#[verifier::external_type_specification]
#[verifier::external_body]
pub struct ExSyntaxReference(syntect::parsing::SyntaxReference);

#[verifier::external_type_specification]
#[verifier::external_body]
pub struct ExTheme(syntect::highlighting::Theme);

/// The event stream `pulldown_cmark` parses a document into, with every
/// unresolved bracketed reference offered to `resolve_wiki_link`; a
/// function of the text alone.
pub uninterp spec fn events_of(md: Seq<char>) -> Seq<pulldown_cmark::Event<'static>>;

/// How one parsed event classifies: fenced code block start, code block
/// end, text node, or other.
pub uninterp spec fn kind_of(e: pulldown_cmark::Event<'static>) -> MdKind;

/// The event wrapping a piece of raw HTML.
pub uninterp spec fn html_node_of(html: Seq<char>) -> pulldown_cmark::Event<'static>;

/// The HTML fragment `pulldown_cmark` writes for an event stream; a
/// function of the events alone.
pub uninterp spec fn html_of(events: Seq<pulldown_cmark::Event<'static>>) -> Seq<char>;

/// The grammar a registry resolves an info-string token to, if any.
pub uninterp spec fn syntax_of_token(
    ss: syntect::parsing::SyntaxSet,
    token: Seq<char>,
) -> Option<syntect::parsing::SyntaxReference>;

/// The registry's plain-text grammar, if it carries one.
pub uninterp spec fn plain_of(ss: syntect::parsing::SyntaxSet) -> Option<
    syntect::parsing::SyntaxReference,
>;

/// The highlighted HTML `syntect` produces for one code block, `None`
/// when highlighting fails; a function of the text, registry, grammar and
/// theme alone.
pub uninterp spec fn highlight_of(
    text: Seq<char>,
    ss: syntect::parsing::SyntaxSet,
    syntax: syntect::parsing::SyntaxReference,
    theme: syntect::highlighting::Theme,
) -> Option<Seq<char>>;

/// Relies on `pulldown_cmark::Parser::new_with_broken_link_callback` and
/// `Event::into_static`: parses markdown into its owned event stream,
/// offering every unresolved bracketed reference to `resolve_wiki_link`.
/// The stream depends on the text alone.
#[verifier::external_body]
fn parse_markdown_events(md: &str) -> (r: Vec<pulldown_cmark::Event<'static>>)
    ensures
        r@ == events_of(md@),
{
    let callback = |link: pulldown_cmark::BrokenLink<'_>| {
        resolve_wiki_link(link.reference.as_ref()).map(
            |(url, title)|
                (
                    pulldown_cmark::CowStr::Boxed(url.into_boxed_str()),
                    pulldown_cmark::CowStr::Boxed(title.into_boxed_str()),
                ),
        )
    };
    let parser = pulldown_cmark::Parser::new_with_broken_link_callback(
        md,
        pulldown_cmark::Options::empty(),
        Some(callback),
    );
    parser.map(|e| e.into_static()).collect()
}

/// Tells the event variants of `pulldown_cmark` apart, carrying over the
/// info string of a fenced code block start and the text of a text node.
#[verifier::external_body]
fn event_kind(e: &pulldown_cmark::Event<'static>) -> (r: MdKind)
    ensures
        r == kind_of(*e),
{
    match e {
        pulldown_cmark::Event::Start(
            pulldown_cmark::Tag::CodeBlock(pulldown_cmark::CodeBlockKind::Fenced(info)),
        ) => MdKind::CodeStart(info.as_ref().to_owned()),
        pulldown_cmark::Event::End(pulldown_cmark::TagEnd::CodeBlock) => MdKind::CodeEnd,
        pulldown_cmark::Event::Text(t) => MdKind::Text(t.as_ref().to_owned()),
        _ => MdKind::Other,
    }
}

/// Relies on `pulldown_cmark::Event::Html`: wraps an HTML string as one
/// event.
#[verifier::external_body]
fn html_event(html: String) -> (r: pulldown_cmark::Event<'static>)
    ensures
        r == html_node_of(html@),
{
    pulldown_cmark::Event::Html(pulldown_cmark::CowStr::Boxed(html.into_boxed_str()))
}

/// Relies on `pulldown_cmark::html::push_html`: writes an event stream
/// out as an HTML fragment, a function of the events alone.
#[verifier::external_body]
fn events_to_html(events: Vec<pulldown_cmark::Event<'static>>) -> (r: String)
    ensures
        r@ == html_of(events@),
{
    let mut out = String::new();
    pulldown_cmark::html::push_html(&mut out, events.into_iter());
    out
}

/// Relies on `syntect::parsing::SyntaxSet::load_defaults_newlines`: the
/// bundled grammar registry.
#[verifier::external_body]
fn load_syntaxes() -> syntect::parsing::SyntaxSet {
    syntect::parsing::SyntaxSet::load_defaults_newlines()
}

/// Relies on `syntect::highlighting::ThemeSet::load_defaults`: the fixed
/// dark color theme; the bundled set carries it, and the default theme
/// stands in if it ever did not.
#[verifier::external_body]
fn load_dark_theme() -> syntect::highlighting::Theme {
    let mut themes = syntect::highlighting::ThemeSet::load_defaults().themes;
    themes.remove("base16-ocean.dark").unwrap_or_default()
}

/// Relies on `syntect::parsing::SyntaxSet::find_syntax_by_token`: looks a
/// grammar up by an info-string token.
#[verifier::external_body]
fn find_syntax(
    ss: &syntect::parsing::SyntaxSet,
    token: &str,
) -> (r: Option<syntect::parsing::SyntaxReference>)
    ensures
        r == syntax_of_token(*ss, token@),
{
    ss.find_syntax_by_token(token).cloned()
}

/// Relies on `syntect::parsing::SyntaxSet::find_syntax_by_name`: the
/// registry's plain-text grammar, `None` when the registry lacks one.
#[verifier::external_body]
fn plain_syntax(ss: &syntect::parsing::SyntaxSet) -> (r: Option<
    syntect::parsing::SyntaxReference,
>)
    ensures
        r == plain_of(*ss),
{
    ss.find_syntax_by_name("Plain Text").cloned()
}

/// Relies on `syntect::html::highlighted_html_for_string`: highlighted
/// HTML for one code block, `None` when highlighting fails.
#[verifier::external_body]
fn highlight_html(
    text: &str,
    ss: &syntect::parsing::SyntaxSet,
    syntax: &syntect::parsing::SyntaxReference,
    theme: &syntect::highlighting::Theme,
) -> (r: Option<String>)
    ensures
        match r {
            Some(h) => highlight_of(text@, *ss, *syntax, *theme) == Some(h@),
            None => highlight_of(text@, *ss, *syntax, *theme) is None,
        },
{
    syntect::html::highlighted_html_for_string(text, ss, syntax, theme).ok()
}

/// The kinds of an event stream, event by event.
pub open spec fn event_kinds(events: Seq<pulldown_cmark::Event<'static>>) -> Seq<MdKind> {
    Seq::new(events.len(), |i: int| kind_of(events[i]))
}

/// What replaces one fenced code block's text: the highlighted HTML for
/// it, under the grammar its info string resolves to with the plain-text
/// grammar as fallback; the text event itself when no grammar is at hand
/// or highlighting fails.
pub open spec fn highlighted_event(
    ss: syntect::parsing::SyntaxSet,
    theme: syntect::highlighting::Theme,
    info: Seq<char>,
    text: Seq<char>,
    ev: pulldown_cmark::Event<'static>,
) -> pulldown_cmark::Event<'static> {
    let syntax = match syntax_of_token(ss, info) {
        Some(sy) => Some(sy),
        None => plain_of(ss),
    };
    match syntax {
        Some(sy) => match highlight_of(text, ss, sy, theme) {
            Some(h) => html_node_of(h),
            None => ev,
        },
        None => ev,
    }
}

/// The transformed suffix of an event stream from position `i` on: code
/// block delimiters vanish, a text node under a pending info string is
/// replaced by its highlighted HTML, everything else passes through.
pub open spec fn transform_from(
    events: Seq<pulldown_cmark::Event<'static>>,
    i: int,
    ss: syntect::parsing::SyntaxSet,
    theme: syntect::highlighting::Theme,
) -> Seq<pulldown_cmark::Event<'static>>
    decreases events.len() - i,
{
    if i < 0 || i >= events.len() {
        Seq::empty()
    } else {
        let head = match kind_of(events[i]) {
            MdKind::CodeStart(_) => Seq::empty(),
            MdKind::CodeEnd => Seq::empty(),
            MdKind::Text(t) => match pending_after(event_kinds(events).take(i)) {
                Some(info) => seq![highlighted_event(ss, theme, info, t@, events[i])],
                None => seq![events[i]],
            },
            MdKind::Other => seq![events[i]],
        };
        head + transform_from(events, i + 1, ss, theme)
    }
}

/// The whole transformed event stream.
pub open spec fn spec_transform(
    events: Seq<pulldown_cmark::Event<'static>>,
    ss: syntect::parsing::SyntaxSet,
    theme: syntect::highlighting::Theme,
) -> Seq<pulldown_cmark::Event<'static>> {
    transform_from(events, 0, ss, theme)
}

/// Render a page's markdown source to an HTML fragment using the given
/// grammar registry and color theme: bracketed references whose text is
/// a page identifier become links to `/{id}`, and fenced code blocks are
/// replaced in place by syntax-highlighted HTML, the grammar chosen by
/// the block's info string with a plain-text fallback. The result is
/// exactly the HTML written for the transformed event stream of the
/// parsed source; the fate of every event — kept, dropped, or replaced —
/// is decided by the verified `plan_render`.
pub fn render_markdown_with(
    ss: &syntect::parsing::SyntaxSet,
    theme: &syntect::highlighting::Theme,
    md: &str,
) -> (r: String)
    ensures
        r@ == html_of(spec_transform(events_of(md@), *ss, *theme)),
{
    let mut events = parse_markdown_events(md);
    let ghost orig = events@;
    let n = events.len();
    let mut kinds: Vec<MdKind> = Vec::new();
    let mut i: usize = 0;
    while i < n
        invariant
            i <= n,
            n == events@.len(),
            events@ == orig,
            kinds@.len() == i,
            forall|j: int| 0 <= j < i ==> kinds@[j] == kind_of(#[trigger] orig[j]),
        decreases n - i,
    {
        kinds.push(event_kind(&events[i]));
        i += 1;
    }
    proof {
        assert(kinds@ =~= event_kinds(orig));
    }
    let actions = plan_render(&kinds);
    let mut out: Vec<pulldown_cmark::Event<'static>> = Vec::new();
    let mut i: usize = 0;
    while i < n
        invariant
            i <= n,
            n == orig.len(),
            n == actions@.len(),
            events@ =~= orig.subrange(i as int, n as int),
            kinds@ == event_kinds(orig),
            forall|j: int|
                0 <= j < n ==> action_matches(
                    #[trigger] actions@[j],
                    kinds@[j],
                    pending_after(kinds@.take(j)),
                ),
            spec_transform(orig, *ss, *theme) == out@ + transform_from(
                orig,
                i as int,
                *ss,
                *theme,
            ),
        decreases n - i,
    {
        let e = events.remove(0);
        proof {
            assert(e == orig[i as int]);
            assert(events@ =~= orig.subrange(i + 1, n as int));
            assert(action_matches(
                actions@[i as int],
                kinds@[i as int],
                pending_after(kinds@.take(i as int)),
            ));
            assert(kinds@[i as int] == kind_of(orig[i as int]));
        }
        let ghost out_pre = out@;
        let ghost head = match kind_of(orig[i as int]) {
            MdKind::CodeStart(_) => Seq::<pulldown_cmark::Event<'static>>::empty(),
            MdKind::CodeEnd => Seq::<pulldown_cmark::Event<'static>>::empty(),
            MdKind::Text(t) => match pending_after(event_kinds(orig).take(i as int)) {
                Some(info) => seq![
                    highlighted_event(*ss, *theme, info, t@, orig[i as int]),
                ],
                None => seq![orig[i as int]],
            },
            MdKind::Other => seq![orig[i as int]],
        };
        match &actions[i] {
            RenderAction::Keep => {
                out.push(e);
                proof {
                    assert(out@ =~= out_pre + head);
                }
            },
            RenderAction::Drop => {
                proof {
                    assert(out@ =~= out_pre + head);
                }
            },
            RenderAction::Highlight(info, text) => {
                let syntax = match find_syntax(ss, info.as_str()) {
                    Some(sy) => Some(sy),
                    None => plain_syntax(ss),
                };
                match syntax {
                    Some(sy) => {
                        match highlight_html(text.as_str(), ss, &sy, theme) {
                            Some(h) => {
                                out.push(html_event(h));
                            },
                            None => {
                                out.push(e);
                            },
                        }
                    },
                    None => {
                        out.push(e);
                    },
                }
                proof {
                    assert(out@ =~= out_pre + head);
                }
            },
        }
        proof {
            assert(transform_from(orig, i as int, *ss, *theme) == head + transform_from(
                orig,
                i + 1,
                *ss,
                *theme,
            ));
            assert(out@ + transform_from(orig, i + 1, *ss, *theme) =~= (out_pre + head)
                + transform_from(orig, i + 1, *ss, *theme));
            assert((out_pre + head) + transform_from(orig, i + 1, *ss, *theme) =~= out_pre + (head
                + transform_from(orig, i + 1, *ss, *theme)));
        }
        i += 1;
    }
    proof {
        assert(out@ + transform_from(orig, n as int, *ss, *theme) =~= out@);
    }
    events_to_html(out)
}

/// Render a page's markdown source with the bundled grammar registry and
/// the fixed dark theme: the HTML written for the transformed event
/// stream under that registry and theme.
pub fn render_markdown(md: &str) -> (r: String)
    ensures
        exists|ss: syntect::parsing::SyntaxSet, theme: syntect::highlighting::Theme|
            r@ == #[trigger] html_of(spec_transform(events_of(md@), ss, theme)),
{
    let ss = load_syntaxes();
    let theme = load_dark_theme();
    let r = render_markdown_with(&ss, &theme, md);
    proof {
        assert(r@ == html_of(spec_transform(events_of(md@), ss, theme)));
    }
    r
}

} // verus!
