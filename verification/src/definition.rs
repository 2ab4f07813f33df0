//! The grammar definition model and its compiler: one rule's right-hand
//! side as an owning recursive variant type with its mathematical view,
//! the decoding of numeric ranges and repetition counts, and the
//! recursive-descent compile that reads tokens from the ABNF tokenizer —
//! whose whole behaviour is pinned, token trace by token trace, by the
//! relations `body_rel` and `var_rel` below.

use vstd::prelude::*;
use crate::abnf_lexer::BnfState;
use crate::assemble::{finish_alts, push_element, assemble_result, step_elem};
use crate::errors::ParseError;
use crate::lexer_state::{
    lemma_lex_steps_concat, lemma_lex_steps_cons, lex_steps, step_err, step_ok, LexerState,
    TokView,
};

verus! {

/// A repetition bound: a concrete count or unbounded.
#[derive(Clone, Copy, Debug, PartialEq, Eq, Structural)]
pub enum RepeatTimes {
    Times(i64),
    Infinity,
}

/// One grammar rule's right-hand side.
pub enum BnfDefinition {
    /// Ordered sub-definitions that must all match in order.
    Series(Vec<Box<BnfDefinition>>),
    /// Ordered alternatives; the first success wins.
    Select(Vec<Box<BnfDefinition>>),
    /// An exact literal to match against one token's text.
    Terminal(String),
    /// A reference to another named rule, resolved at interpretation time.
    Rule(String),
    /// Inclusive numeric code-point bounds, begin strictly below end.
    Range((i64, i64)),
    /// A parenthesized sub-definition, semantically transparent.
    Group(Box<BnfDefinition>),
    /// Zero-or-one occurrence of a sub-definition.
    Options(Box<BnfDefinition>),
    /// A minimum count, a maximum count or unbounded, and the repeated
    /// sub-definition.
    Repeat((RepeatTimes, RepeatTimes, Box<BnfDefinition>)),
}

/// The mathematical shape of a repetition bound.
pub ghost enum RepeatView {
    Times(int),
    Infinity,
}

/// The mathematical shape of a definition tree.
pub ghost enum DefView {
    Series(Seq<DefView>),
    Select(Seq<DefView>),
    Terminal(Seq<char>),
    Rule(Seq<char>),
    Range(int, int),
    Group(Box<DefView>),
    Options(Box<DefView>),
    Repeat(RepeatView, RepeatView, Box<DefView>),
}

impl RepeatTimes {
    /// The mathematical shape of this bound.
    pub open spec fn rview(&self) -> RepeatView {
        match self {
            RepeatTimes::Times(n) => RepeatView::Times(*n as int),
            RepeatTimes::Infinity => RepeatView::Infinity,
        }
    }
}

/// The mathematical shapes of a list of sub-definitions, in order.
pub open spec fn dview_seq(v: Seq<Box<BnfDefinition>>) -> Seq<DefView>
    decreases v,
{
    if v.len() == 0 {
        Seq::<DefView>::empty()
    } else {
        dview_seq(v.subrange(0, v.len() - 1)).push((*v[v.len() - 1]).dview())
    }
}

/// The shape list of an extended sub-definition list is the extended shape
/// list.
pub proof fn lemma_dview_seq_push(v: Seq<Box<BnfDefinition>>, b: Box<BnfDefinition>)
    ensures
        dview_seq(v.push(b)) == dview_seq(v).push((*b).dview()),
{
    assert(v.push(b).subrange(0, v.len() as int) =~= v);
}

/// The shape list of an empty sub-definition list is empty.
pub proof fn lemma_dview_seq_empty()
    ensures
        dview_seq(Seq::<Box<BnfDefinition>>::empty()) == Seq::<DefView>::empty(),
{
}

/// Shape lists match their lists pointwise.
pub proof fn lemma_dview_seq_len(v: Seq<Box<BnfDefinition>>)
    ensures
        dview_seq(v).len() == v.len(),
        forall|i: int| 0 <= i < v.len() ==> dview_seq(v)[i] == (*v[i]).dview(),
    decreases v.len(),
{
    if v.len() > 0 {
        lemma_dview_seq_len(v.subrange(0, v.len() - 1));
    }
}

impl BnfDefinition {
    /// The mathematical shape of this definition tree.
    pub open spec fn dview(&self) -> DefView
        decreases self,
    {
        match self {
            BnfDefinition::Series(v) => DefView::Series(dview_seq(v@)),
            BnfDefinition::Select(v) => DefView::Select(dview_seq(v@)),
            BnfDefinition::Terminal(s) => DefView::Terminal(s@),
            BnfDefinition::Rule(s) => DefView::Rule(s@),
            BnfDefinition::Range(b) => DefView::Range(b.0 as int, b.1 as int),
            BnfDefinition::Group(d) => DefView::Group(Box::new((**d).dview())),
            BnfDefinition::Options(d) => DefView::Options(Box::new((**d).dview())),
            BnfDefinition::Repeat(r) => DefView::Repeat(
                r.0.rview(),
                r.1.rview(),
                Box::new((*r.2).dview()),
            ),
        }
    }
}

/// The radix a numeric-range base letter selects.
pub open spec fn radix_of(base: char) -> int {
    if base == 'b' {
        2
    } else if base == 'd' {
        10
    } else {
        16
    }
}

/// The value of one digit under a base letter: binary accepts 0 and 1,
/// decimal the ten digits, and the hexadecimal base accepts any letter,
/// valued from ten upward.
pub open spec fn digit_val(base: char, c: char) -> Option<int> {
    if base == 'b' {
        if '0' as int <= c as int <= '1' as int {
            Some(c as int - '0' as int)
        } else {
            None
        }
    } else if base == 'd' {
        if '0' as int <= c as int <= '9' as int {
            Some(c as int - '0' as int)
        } else {
            None
        }
    } else if base == 'x' {
        if '0' as int <= c as int <= '9' as int {
            Some(c as int - '0' as int)
        } else if 'a' as int <= c as int <= 'z' as int {
            Some(c as int - 'a' as int + 10)
        } else if 'A' as int <= c as int <= 'Z' as int {
            Some(c as int - 'A' as int + 10)
        } else {
            None
        }
    } else {
        None
    }
}

/// Reading a range bound from position `i` on: digits accumulate into
/// `acc` until a dash (consumed) or the end of the text; a character that
/// is no digit of the base, or a value beyond the machine's signed range,
/// is a failure.
pub open spec fn scan_value(base: char, text: Seq<char>, i: int, acc: int) -> Option<(int, int)>
    decreases text.len() - i,
        when 0 <= i <= text.len()
{
    if i >= text.len() {
        Some((acc, i))
    } else if text[i] == '-' {
        Some((acc, i + 1))
    } else {
        match digit_val(base, text[i]) {
            Some(d) => {
                let acc2 = acc * radix_of(base) + d;
                if acc2 > i64::MAX {
                    None
                } else {
                    scan_value(base, text, i + 1, acc2)
                }
            },
            None => None,
        }
    }
}

/// Reading a repetition count from position `i` on: decimal digits
/// accumulate until a star (consumed, reported as `'*'`) or the end of the
/// text (reported as `'\0'`); anything else, including a value beyond the
/// machine's signed range, yields zero and `'\0'`.
pub open spec fn scan_repeat(text: Seq<char>, i: int, acc: int) -> (int, char, int)
    decreases text.len() - i,
        when 0 <= i <= text.len()
{
    if i >= text.len() {
        (acc, '\0', i)
    } else if text[i] == '*' {
        (acc, '*', i + 1)
    } else {
        match digit_val('d', text[i]) {
            Some(d) => {
                let acc2 = acc * 10 + d;
                if acc2 > i64::MAX {
                    (0, '\0', i + 1)
                } else {
                    scan_repeat(text, i + 1, acc2)
                }
            },
            None => (0, '\0', i + 1),
        }
    }
}

/// How a whole range token decodes: the first character is skipped, the
/// second names the base, then two bounds follow, separated by a dash; the
/// begin bound must lie strictly below the end bound.
pub open spec fn range_of_text(content: Seq<char>) -> Result<(int, int), ParseError> {
    if content.len() < 2 {
        Err(ParseError::UnknownTokenKind)
    } else {
        let base = content[1];
        match scan_value(base, content, 2, 0) {
            None => Err(ParseError::UnknownTokenKind),
            Some((b, i2)) => match scan_value(base, content, i2, 0) {
                None => Err(ParseError::UnknownTokenKind),
                Some((e, _)) => if b < e {
                    Ok((b, e))
                } else {
                    Err(ParseError::RangeBoundsInvalid)
                },
            },
        }
    }
}

/// The value of one digit under a base letter.
fn digit_of(base: char, c: char) -> (r: Option<i64>)
    ensures
        (match r {
            Some(d) => digit_val(base, c) == Some(d as int) && 0 <= d <= 35,
            None => digit_val(base, c) is None,
        }),
{
    let cu = c as u32;
    if base == 'b' {
        if '0' as u32 <= cu && cu <= '1' as u32 {
            Some((cu - '0' as u32) as i64)
        } else {
            None
        }
    } else if base == 'd' {
        if '0' as u32 <= cu && cu <= '9' as u32 {
            Some((cu - '0' as u32) as i64)
        } else {
            None
        }
    } else if base == 'x' {
        if '0' as u32 <= cu && cu <= '9' as u32 {
            Some((cu - '0' as u32) as i64)
        } else if 'a' as u32 <= cu && cu <= 'z' as u32 {
            Some((cu - 'a' as u32) as i64 + 10)
        } else if 'A' as u32 <= cu && cu <= 'Z' as u32 {
            Some((cu - 'A' as u32) as i64 + 10)
        } else {
            None
        }
    } else {
        None
    }
}

impl BnfDefinition {
    /// Read one bound of a numeric range from `start` on, up to a dash or
    /// the end; reports the value and the position after what was read.
    pub fn range_numeric(base: char, text: &str, start: usize) -> (r: Option<(i64, usize)>)
        requires
            start <= text@.len(),
        ensures
            (match r {
                Some((v, nx)) => scan_value(base, text@, start as int, 0) == Some(
                    (v as int, nx as int),
                ) && nx <= text@.len(),
                None => scan_value(base, text@, start as int, 0) is None,
            }),
    {
        let text_len = text.unicode_len();
        let radix: i64 = if base == 'b' {
            2
        } else if base == 'd' {
            10
        } else {
            16
        };
        let mut i = start;
        let mut acc: i64 = 0;
        loop
            invariant
                start <= i <= text_len,
                text_len == text@.len(),
                0 <= acc,
                radix as int == radix_of(base),
                scan_value(base, text@, start as int, 0) == scan_value(
                    base,
                    text@,
                    i as int,
                    acc as int,
                ),
            decreases text_len - i,
        {
            if i >= text_len {
                return Some((acc, i));
            }
            let c = text.get_char(i);
            if c == '-' {
                return Some((acc, i + 1));
            }
            match digit_of(base, c) {
                None => {
                    return None;
                },
                Some(d) => {
                    let product = match acc.checked_mul(radix) {
                        Some(p) => p,
                        None => {
                            return None;
                        },
                    };
                    let acc2 = match product.checked_add(d) {
                        Some(s) => s,
                        None => {
                            return None;
                        },
                    };
                    acc = acc2;
                },
            }
            i = i + 1;
        }
    }

    /// Read a repetition count from `start` on, up to a star or the end;
    /// reports the value, the stopping character and the position after
    /// what was read.
    pub fn repeat_numeric(text: &str, start: usize) -> (r: (i64, char, usize))
        requires
            start <= text@.len(),
        ensures
            scan_repeat(text@, start as int, 0) == (r.0 as int, r.1, r.2 as int),
            r.2 <= text@.len(),
    {
        let text_len = text.unicode_len();
        let mut i = start;
        let mut acc: i64 = 0;
        loop
            invariant
                start <= i <= text_len,
                text_len == text@.len(),
                0 <= acc,
                scan_repeat(text@, start as int, 0) == scan_repeat(text@, i as int, acc as int),
            decreases text_len - i,
        {
            if i >= text_len {
                return (acc, '\0', i);
            }
            let c = text.get_char(i);
            if c == '*' {
                return (acc, '*', i + 1);
            }
            match digit_of('d', c) {
                None => {
                    return (0, '\0', i + 1);
                },
                Some(d) => {
                    let acc2 = match acc.checked_mul(10) {
                        Some(p) => match p.checked_add(d) {
                            Some(s) => s,
                            None => {
                                return (0, '\0', i + 1);
                            },
                        },
                        None => {
                            return (0, '\0', i + 1);
                        },
                    };
                    acc = acc2;
                },
            }
            i = i + 1;
        }
    }

    /// Decode a whole numeric-range token into a `Range` node, rejecting a
    /// range whose begin bound does not lie strictly below its end bound.
    pub fn impl_range_new(content: &str) -> (r: Result<Box<BnfDefinition>, ParseError>)
        ensures
            (match range_of_text(content@) {
                Ok(bounds) => r matches Ok(d) && (*d).dview() == DefView::Range(
                    bounds.0,
                    bounds.1,
                ),
                Err(e) => r matches Err(e2) && e2 == e,
            }),
    {
        let content_len = content.unicode_len();
        if content_len < 2 {
            return Err(ParseError::UnknownTokenKind);
        }
        let base = content.get_char(1);
        let (begin, after_begin) = match Self::range_numeric(base, content, 2) {
            Some(p) => p,
            None => {
                return Err(ParseError::UnknownTokenKind);
            },
        };
        let (end, _after_end) = match Self::range_numeric(base, content, after_begin) {
            Some(p) => p,
            None => {
                return Err(ParseError::UnknownTokenKind);
            },
        };
        if begin < end {
            Ok(Box::new(BnfDefinition::Range((begin, end))))
        } else {
            Err(ParseError::RangeBoundsInvalid)
        }
    }
}

/// The literal a quoted terminal token stands for: its text without the
/// surrounding quotes; any other terminal text stands for itself.
pub open spec fn terminal_text(s: Seq<char>) -> Seq<char> {
    if s.len() >= 2 && s[0] == '"' && s[s.len() - 1] == '"' {
        s.subrange(1, s.len() - 1)
    } else {
        s
    }
}

fn strip_terminal(s: &str) -> (r: String)
    ensures
        r@ == terminal_text(s@),
{
    let n = s.unicode_len();
    if n >= 2 && s.get_char(0) == '"' && s.get_char(n - 1) == '"' {
        s.substring_char(1, n - 1).to_owned()
    } else {
        s.to_owned()
    }
}

/// Whether two text fragments are the same characters.
pub fn str_eq(a: &str, b: &str) -> (r: bool)
    ensures
        r == (a@ == b@),
{
    let a2 = a.to_owned();
    let b2 = b.to_owned();
    a2 == b2
}

/// How a repetition-count token decodes: `*` alone means zero to
/// unbounded, `*n` zero to n, `m` m to unbounded, and `m*n` m to n.
pub open spec fn repeat_bounds(content: Seq<char>) -> (RepeatView, RepeatView) {
    if content.len() > 0 && content[0] == '*' {
        if content.len() != 1 {
            let e = scan_repeat(content, 1, 0);
            (RepeatView::Times(0), RepeatView::Times(e.0))
        } else {
            (RepeatView::Times(0), RepeatView::Infinity)
        }
    } else {
        let b = scan_repeat(content, 0, 0);
        if b.1 == '*' {
            let e = scan_repeat(content, b.2, 0);
            (RepeatView::Times(b.0), RepeatView::Times(e.0))
        } else {
            (RepeatView::Times(b.0), RepeatView::Infinity)
        }
    }
}

fn parse_repeat_bounds(content: &str) -> (r: (RepeatTimes, RepeatTimes))
    ensures
        (r.0.rview(), r.1.rview()) == repeat_bounds(content@),
{
    let n = content.unicode_len();
    if n > 0 && content.get_char(0) == '*' {
        if n != 1 {
            let (e, _, _) = BnfDefinition::repeat_numeric(content, 1);
            (RepeatTimes::Times(0), RepeatTimes::Times(e))
        } else {
            (RepeatTimes::Times(0), RepeatTimes::Infinity)
        }
    } else {
        let (b, stop, next) = BnfDefinition::repeat_numeric(content, 0);
        if stop == '*' {
            let (e, _, _) = BnfDefinition::repeat_numeric(content, next);
            (RepeatTimes::Times(b), RepeatTimes::Times(e))
        } else {
            (RepeatTimes::Times(b), RepeatTimes::Infinity)
        }
    }
}

/// The closing kind a nesting token waits for.
pub open spec fn close_of(ty: Seq<char>) -> Seq<char> {
    if ty == "abnf_token_left_options"@ {
        "abnf_token_right_options"@
    } else {
        "abnf_token_right_parenthesis"@
    }
}

/// The node a nesting token wraps its body in.
pub open spec fn wrap_of(ty: Seq<char>, inner: DefView) -> DefView {
    if ty == "abnf_token_left_options"@ {
        DefView::Options(Box::new(inner))
    } else {
        DefView::Group(Box::new(inner))
    }
}

/// A trigger marker naming the split point and inner node of a nested
/// body inside a trace.
pub open spec fn split_witness(k: int, inner: DefView) -> bool {
    true
}

/// A trigger marker naming a propagated failure.
pub open spec fn err_witness(e: ParseError) -> bool {
    true
}

/// Whether the token trace `ts`, read against the terminator kind
/// `end_ty` with the alternatives `alts` collected so far, compiles
/// exactly to `out`. The trace holds exactly the consumed tokens; `fuel`
/// is the documented recursion-depth guard, spent one unit per step.
pub open spec fn body_rel(
    ts: Seq<TokView>,
    end_ty: Seq<char>,
    alts: Seq<DefView>,
    fresh: bool,
    saw: bool,
    fuel: nat,
    out: Result<DefView, ParseError>,
) -> bool
    decreases fuel,
{
    if fuel == 0 {
        ts.len() == 0 && out == Err::<DefView, ParseError>(ParseError::RecursionLimit)
    } else if ts.len() == 0 {
        false
    } else {
        let t = ts[0];
        let rest = ts.drop_first();
        if t.ty == end_ty {
            rest.len() == 0 && out == finish_alts(alts, saw)
        } else if t.ty == "abnf_token_left_options"@ || t.ty == "abnf_token_left_parenthesis"@ {
            ||| (exists|k: int, inner: DefView|
                #[trigger] split_witness(k, inner) && 0 <= k <= rest.len() && body_rel(
                    rest.subrange(0, k),
                    close_of(t.ty),
                    Seq::<DefView>::empty(),
                    true,
                    false,
                    (fuel - 1) as nat,
                    Ok(inner),
                ) && body_rel(
                    rest.subrange(k, rest.len() as int),
                    end_ty,
                    step_elem(alts, fresh, wrap_of(t.ty, inner)),
                    false,
                    saw,
                    (fuel - 1) as nat,
                    out,
                ))
            ||| (exists|e: ParseError|
                #[trigger] err_witness(e) && body_rel(
                    rest,
                    close_of(t.ty),
                    Seq::<DefView>::empty(),
                    true,
                    false,
                    (fuel - 1) as nat,
                    Err(e),
                ) && out == Err::<DefView, ParseError>(e))
        } else if t.ty == "abnf_token_name"@ || t.ty == "abnf_requirement"@ {
            body_rel(
                rest,
                end_ty,
                step_elem(alts, fresh, DefView::Rule(t.text)),
                false,
                saw,
                (fuel - 1) as nat,
                out,
            )
        } else if t.ty == "abnf_token_terminal"@ {
            body_rel(
                rest,
                end_ty,
                step_elem(alts, fresh, DefView::Terminal(terminal_text(t.text))),
                false,
                saw,
                (fuel - 1) as nat,
                out,
            )
        } else if t.ty == "abnf_token_range"@ {
            match range_of_text(t.text) {
                Ok(b) => body_rel(
                    rest,
                    end_ty,
                    step_elem(alts, fresh, DefView::Range(b.0, b.1)),
                    false,
                    saw,
                    (fuel - 1) as nat,
                    out,
                ),
                Err(e) => rest.len() == 0 && out == Err::<DefView, ParseError>(e),
            }
        } else if t.ty == "abnf_token_variable"@ {
            ||| (exists|k: int, node: DefView|
                #[trigger] split_witness(k, node) && 0 <= k <= rest.len() && var_rel(
                    rest.subrange(0, k),
                    t.text,
                    (fuel - 1) as nat,
                    Ok(node),
                ) && body_rel(
                    rest.subrange(k, rest.len() as int),
                    end_ty,
                    step_elem(alts, fresh, node),
                    false,
                    saw,
                    (fuel - 1) as nat,
                    out,
                ))
            ||| (exists|e: ParseError|
                #[trigger] err_witness(e) && var_rel(rest, t.text, (fuel - 1) as nat, Err(e))
                    && out == Err::<DefView, ParseError>(e))
        } else if t.ty == "abnf_token_select"@ {
            body_rel(rest, end_ty, alts, true, true, (fuel - 1) as nat, out)
        } else if t.ty == "abnf_token_eof"@ {
            rest.len() == 0 && out == Err::<DefView, ParseError>(ParseError::PrematureEnd)
        } else {
            rest.len() == 0 && out == Err::<DefView, ParseError>(ParseError::UnknownTokenKind)
        }
    }
}

/// Whether the token trace `ts`, read just after a repetition-count token
/// with text `content`, yields exactly the repeated node `out`.
pub open spec fn var_rel(
    ts: Seq<TokView>,
    content: Seq<char>,
    fuel: nat,
    out: Result<DefView, ParseError>,
) -> bool
    decreases fuel,
{
    let bounds = repeat_bounds(content);
    if fuel == 0 {
        ts.len() == 0 && out == Err::<DefView, ParseError>(ParseError::RecursionLimit)
    } else if ts.len() == 0 {
        false
    } else {
        let t = ts[0];
        let rest = ts.drop_first();
        if t.ty == "abnf_token_eof"@ {
            rest.len() == 0 && out == Err::<DefView, ParseError>(ParseError::PrematureEnd)
        } else if t.ty == "abnf_token_left_options"@ || t.ty
            == "abnf_token_left_parenthesis"@ {
            ||| (exists|inner: DefView|
                #[trigger] split_witness(0, inner) && body_rel(
                    rest,
                    close_of(t.ty),
                    Seq::<DefView>::empty(),
                    true,
                    false,
                    (fuel - 1) as nat,
                    Ok(inner),
                ) && out == Ok::<DefView, ParseError>(
                    DefView::Repeat(bounds.0, bounds.1, Box::new(wrap_of(t.ty, inner))),
                ))
            ||| (exists|e: ParseError|
                #[trigger] err_witness(e) && body_rel(
                    rest,
                    close_of(t.ty),
                    Seq::<DefView>::empty(),
                    true,
                    false,
                    (fuel - 1) as nat,
                    Err(e),
                ) && out == Err::<DefView, ParseError>(e))
        } else if t.ty == "abnf_token_name"@ || t.ty == "abnf_requirement"@ {
            rest.len() == 0 && out == Ok::<DefView, ParseError>(
                DefView::Repeat(bounds.0, bounds.1, Box::new(DefView::Rule(t.text))),
            )
        } else if t.ty == "abnf_token_terminal"@ {
            rest.len() == 0 && out == Ok::<DefView, ParseError>(
                DefView::Repeat(
                    bounds.0,
                    bounds.1,
                    Box::new(DefView::Terminal(terminal_text(t.text))),
                ),
            )
        } else {
            rest.len() == 0 && out == Err::<DefView, ParseError>(ParseError::UnknownTokenKind)
        }
    }
}

/// The assembly events a run of rule-name and alternation tokens stands
/// for: a name lands as one `Rule` element, the marker as a marker.
pub open spec fn flat_events(ts: Seq<TokView>) -> Seq<crate::assemble::BodyEvent>
    decreases ts.len(),
{
    if ts.len() == 0 {
        Seq::<crate::assemble::BodyEvent>::empty()
    } else {
        let e = if ts[0].ty == "abnf_token_select"@ {
            crate::assemble::BodyEvent::Marker
        } else {
            crate::assemble::BodyEvent::Element(DefView::Rule(ts[0].text))
        };
        seq![e] + flat_events(ts.drop_first())
    }
}

/// Whether every token of a trace is a rule name or the alternation
/// marker.
pub open spec fn flat_tokens(ts: Seq<TokView>) -> bool {
    forall|i: int|
        0 <= i < ts.len() ==> (#[trigger] ts[i].ty) == "abnf_token_name"@ || ts[i].ty
            == "abnf_token_select"@
}

/// Compiling a flat body is exactly assembling its events: from any
/// collected alternatives, the compile of the remaining flat tokens plus
/// the terminator yields what the assembly fold yields.
proof fn lemma_flat_body_generalized(
    ts: Seq<TokView>,
    end_tok: TokView,
    end_ty: Seq<char>,
    alts: Seq<DefView>,
    fresh: bool,
    saw: bool,
    fuel: nat,
)
    requires
        flat_tokens(ts),
        end_tok.ty == end_ty,
        end_ty != "abnf_token_name"@,
        end_ty != "abnf_token_select"@,
        fuel > ts.len(),
    ensures
        body_rel(
            ts + seq![end_tok],
            end_ty,
            alts,
            fresh,
            saw,
            fuel,
            finish_alts(
                crate::assemble::run_from(alts, fresh, flat_events(ts)).0,
                saw || crate::assemble::marker_count(flat_events(ts)) > 0,
            ),
        ),
    decreases ts.len(),
{
    lemma_kinds_distinct();
    let whole = ts + seq![end_tok];
    if ts.len() == 0 {
        assert(whole =~= seq![end_tok]);
        assert(whole.drop_first() =~= Seq::<TokView>::empty());
        assert(flat_events(ts) =~= Seq::<crate::assemble::BodyEvent>::empty());
    } else {
        let t = ts[0];
        assert(t.ty == "abnf_token_name"@ || t.ty == "abnf_token_select"@);
        assert(whole[0] == t);
        assert(whole.drop_first() =~= ts.drop_first() + seq![end_tok]);
        assert(flat_events(ts)[0] == (if t.ty == "abnf_token_select"@ {
            crate::assemble::BodyEvent::Marker
        } else {
            crate::assemble::BodyEvent::Element(DefView::Rule(t.text))
        }));
        assert(flat_events(ts).drop_first() =~= flat_events(ts.drop_first()));
        assert forall|i: int|
            0 <= i < ts.drop_first().len() implies ((#[trigger] ts.drop_first()[i].ty)
            == "abnf_token_name"@ || ts.drop_first()[i].ty == "abnf_token_select"@) by {
            assert(ts.drop_first()[i] == ts[i + 1]);
        }
        crate::assemble::lemma_marker_count_nonneg(flat_events(ts.drop_first()));
        if t.ty == "abnf_token_select"@ {
            lemma_flat_body_generalized(
                ts.drop_first(),
                end_tok,
                end_ty,
                alts,
                true,
                true,
                (fuel - 1) as nat,
            );
            assert(saw || crate::assemble::marker_count(flat_events(ts)) > 0);
        } else {
            lemma_flat_body_generalized(
                ts.drop_first(),
                end_tok,
                end_ty,
                crate::assemble::step_elem(alts, fresh, DefView::Rule(t.text)),
                false,
                saw,
                (fuel - 1) as nat,
            );
            assert((saw || crate::assemble::marker_count(flat_events(ts)) > 0) == (saw
                || crate::assemble::marker_count(flat_events(ts.drop_first())) > 0));
        }
    }
}

/// Compiling a body of rule names and alternation markers yields exactly
/// what the assembly of its events yields — so the single-element, series
/// and select laws of `crate::assemble` hold of compilation itself.
pub proof fn lemma_compile_is_assembly_on_flat_bodies(
    ts: Seq<TokView>,
    end_tok: TokView,
    end_ty: Seq<char>,
    fuel: nat,
)
    requires
        flat_tokens(ts),
        end_tok.ty == end_ty,
        end_ty != "abnf_token_name"@,
        end_ty != "abnf_token_select"@,
        fuel > ts.len(),
    ensures
        body_rel(
            ts + seq![end_tok],
            end_ty,
            Seq::<DefView>::empty(),
            true,
            false,
            fuel,
            crate::assemble::finish_body(flat_events(ts)),
        ),
{
    lemma_flat_body_generalized(
        ts,
        end_tok,
        end_ty,
        Seq::<DefView>::empty(),
        true,
        false,
        fuel,
    );
}

/// The rule references a run of name tokens stands for, in order.
pub open spec fn rules_of(ts: Seq<TokView>) -> Seq<DefView> {
    ts.map_values(|t: TokView| DefView::Rule(t.text))
}

/// Whether every token of a trace is a rule name.
pub open spec fn name_tokens(ts: Seq<TokView>) -> bool {
    forall|i: int| 0 <= i < ts.len() ==> (#[trigger] ts[i].ty) == "abnf_token_name"@
}

/// The events of a run of name tokens are exactly the element events of
/// its rule references.
proof fn lemma_flat_events_of_names(ts: Seq<TokView>)
    requires
        name_tokens(ts),
    ensures
        flat_events(ts) == crate::assemble::group_events(rules_of(ts)),
    decreases ts.len(),
{
    lemma_kinds_distinct();
    if ts.len() == 0 {
        assert(rules_of(ts) =~= Seq::<DefView>::empty());
        assert(flat_events(ts) =~= crate::assemble::group_events(rules_of(ts)));
    } else {
        assert forall|i: int|
            0 <= i < ts.drop_first().len() implies (#[trigger] ts.drop_first()[i].ty)
            == "abnf_token_name"@ by {
            assert(ts.drop_first()[i] == ts[i + 1]);
        }
        lemma_flat_events_of_names(ts.drop_first());
        assert(rules_of(ts)[0] == DefView::Rule(ts[0].text));
        assert(rules_of(ts).drop_first() =~= rules_of(ts.drop_first()));
        assert(crate::assemble::group_events(rules_of(ts))[0]
            == crate::assemble::BodyEvent::Element(DefView::Rule(ts[0].text)));
        assert(crate::assemble::group_events(rules_of(ts)).drop_first()
            =~= crate::assemble::group_events(rules_of(ts).drop_first()));
        assert(flat_events(ts)[0] == crate::assemble::BodyEvent::Element(
            DefView::Rule(ts[0].text),
        ));
        assert(flat_events(ts).drop_first() =~= flat_events(ts.drop_first()));
        assert(flat_events(ts) =~= crate::assemble::group_events(rules_of(ts)));
    }
}

/// Compiling a body of exactly one rule name yields that single reference
/// itself, not wrapped in a `Series`.
pub proof fn lemma_compile_single_name(
    t: TokView,
    end_tok: TokView,
    end_ty: Seq<char>,
    fuel: nat,
)
    requires
        t.ty == "abnf_token_name"@,
        end_tok.ty == end_ty,
        end_ty != "abnf_token_name"@,
        end_ty != "abnf_token_select"@,
        fuel > 1,
    ensures
        body_rel(
            seq![t, end_tok],
            end_ty,
            Seq::<DefView>::empty(),
            true,
            false,
            fuel,
            Ok(DefView::Rule(t.text)),
        ),
{
    let ts = seq![t];
    assert(name_tokens(ts));
    assert(flat_tokens(ts)) by {
        lemma_kinds_distinct();
    }
    lemma_compile_is_assembly_on_flat_bodies(ts, end_tok, end_ty, fuel);
    lemma_flat_events_of_names(ts);
    assert(ts[0] == t);
    assert(rules_of(ts).len() == 1);
    assert(rules_of(ts)[0] == DefView::Rule(t.text));
    assert(rules_of(ts) =~= seq![DefView::Rule(t.text)]);
    let d = DefView::Rule(t.text);
    assert(seq![d].drop_first() =~= Seq::<DefView>::empty());
    assert(crate::assemble::group_events(Seq::<DefView>::empty())
        =~= Seq::<crate::assemble::BodyEvent>::empty());
    assert(seq![d][0] == d);
    assert(crate::assemble::group_events(seq![d]) =~= seq![
        crate::assemble::BodyEvent::Element(d),
    ]);
    crate::assemble::lemma_single_element_body(d);
    assert(ts + seq![end_tok] =~= seq![t, end_tok]);
}

/// Compiling a body of more than one rule name and no alternation marker
/// yields a `Series` of exactly those references, in source order. The
/// elements here are rule references, so none opens as a `Series` — the
/// assembly law's premise is discharged, not assumed.
pub proof fn lemma_compile_series_of_names(
    ts: Seq<TokView>,
    end_tok: TokView,
    end_ty: Seq<char>,
    fuel: nat,
)
    requires
        ts.len() > 1,
        name_tokens(ts),
        end_tok.ty == end_ty,
        end_ty != "abnf_token_name"@,
        end_ty != "abnf_token_select"@,
        fuel > ts.len(),
    ensures
        body_rel(
            ts + seq![end_tok],
            end_ty,
            Seq::<DefView>::empty(),
            true,
            false,
            fuel,
            Ok(DefView::Series(rules_of(ts))),
        ),
{
    assert(flat_tokens(ts)) by {
        lemma_kinds_distinct();
    }
    lemma_compile_is_assembly_on_flat_bodies(ts, end_tok, end_ty, fuel);
    lemma_flat_events_of_names(ts);
    assert(rules_of(ts).len() == ts.len());
    assert(rules_of(ts)[0] == DefView::Rule(ts[0].text));
    assert(!(rules_of(ts)[0] is Series));
    crate::assemble::lemma_series_body(rules_of(ts));
}

/// Events of concatenated traces concatenate.
proof fn lemma_flat_events_concat(a: Seq<TokView>, b: Seq<TokView>)
    ensures
        flat_events(a + b) == flat_events(a) + flat_events(b),
    decreases a.len(),
{
    if a.len() == 0 {
        assert(a + b =~= b);
        assert(flat_events(a) =~= Seq::<crate::assemble::BodyEvent>::empty());
        assert(flat_events(a) + flat_events(b) =~= flat_events(b));
    } else {
        assert((a + b).drop_first() =~= a.drop_first() + b);
        assert((a + b)[0] == a[0]);
        lemma_flat_events_concat(a.drop_first(), b);
        assert(flat_events(a).drop_first() =~= flat_events(a.drop_first()));
        assert(flat_events(a)[0] == flat_events(a + b)[0]);
        assert(flat_events(a + b) =~= flat_events(a) + flat_events(b));
    }
}

/// The tokens of the remaining alternatives, each preceded by the marker
/// token.
pub open spec fn name_group_tail_tokens(groups: Seq<Seq<TokView>>, sel: TokView) -> Seq<TokView>
    decreases groups.len(),
{
    if groups.len() == 0 {
        Seq::<TokView>::empty()
    } else {
        seq![sel] + groups[0] + name_group_tail_tokens(groups.drop_first(), sel)
    }
}

/// The tokens of a body whose alternatives are the given runs of rule
/// names, separated by the marker token.
pub open spec fn name_groups_tokens(groups: Seq<Seq<TokView>>, sel: TokView) -> Seq<TokView> {
    if groups.len() == 0 {
        Seq::<TokView>::empty()
    } else {
        groups[0] + name_group_tail_tokens(groups.drop_first(), sel)
    }
}

/// Every token of such a body is a rule name or the marker.
proof fn lemma_tail_tokens_flat(groups: Seq<Seq<TokView>>, sel: TokView)
    requires
        sel.ty == "abnf_token_select"@,
        forall|i: int| 0 <= i < groups.len() ==> name_tokens(#[trigger] groups[i]),
    ensures
        flat_events(name_group_tail_tokens(groups, sel)) == crate::assemble::tail_groups_events(
            groups.map_values(|g: Seq<TokView>| rules_of(g)),
        ),
    decreases groups.len(),
{
    lemma_kinds_distinct();
    let m = groups.map_values(|g: Seq<TokView>| rules_of(g));
    if groups.len() == 0 {
        assert(name_group_tail_tokens(groups, sel) =~= Seq::<TokView>::empty());
        assert(flat_events(Seq::<TokView>::empty()) =~= Seq::<crate::assemble::BodyEvent>::empty());
        assert(m.len() == 0);
        assert(crate::assemble::tail_groups_events(m)
            =~= Seq::<crate::assemble::BodyEvent>::empty());
    } else {
        let rest = groups.drop_first();
        assert forall|i: int| 0 <= i < rest.len() implies name_tokens(#[trigger] rest[i]) by {
            assert(rest[i] == groups[i + 1]);
        }
        lemma_tail_tokens_flat(rest, sel);
        let whole = seq![sel] + groups[0] + name_group_tail_tokens(rest, sel);
        assert(name_group_tail_tokens(groups, sel) == whole);
        assert(whole =~= seq![sel] + (groups[0] + name_group_tail_tokens(rest, sel)));
        lemma_flat_events_concat(seq![sel], groups[0] + name_group_tail_tokens(rest, sel));
        lemma_flat_events_concat(groups[0], name_group_tail_tokens(rest, sel));
        assert(seq![sel][0] == sel);
        assert(seq![sel].drop_first() =~= Seq::<TokView>::empty());
        assert(flat_events(Seq::<TokView>::empty()) =~= Seq::<crate::assemble::BodyEvent>::empty());
        assert(flat_events(seq![sel]) =~= seq![crate::assemble::BodyEvent::Marker]);
        lemma_flat_events_of_names(groups[0]);
        assert(m[0] == rules_of(groups[0]));
        assert(m.drop_first() =~= rest.map_values(|g: Seq<TokView>| rules_of(g)));
        assert(crate::assemble::tail_groups_events(m) == seq![crate::assemble::BodyEvent::Marker]
            + crate::assemble::group_events(m[0]) + crate::assemble::tail_groups_events(
            m.drop_first(),
        ));
        assert(flat_events(whole) =~= crate::assemble::tail_groups_events(m));
    }
}

/// Compiling a body whose alternatives are M+1 runs of rule names,
/// separated by M >= 1 alternation markers, yields a `Select` of exactly
/// M+1 branches in source order, each branch collapsed by the
/// single/multi rule. The elements here are rule references, so no branch
/// opens as a `Series` — the assembly law's premise is discharged, not
/// assumed.
pub proof fn lemma_compile_select_of_names(
    groups: Seq<Seq<TokView>>,
    sel: TokView,
    end_tok: TokView,
    end_ty: Seq<char>,
    fuel: nat,
)
    requires
        groups.len() >= 2,
        forall|i: int| 0 <= i < groups.len() ==> (#[trigger] groups[i]).len() >= 1,
        forall|i: int| 0 <= i < groups.len() ==> name_tokens(#[trigger] groups[i]),
        sel.ty == "abnf_token_select"@,
        end_tok.ty == end_ty,
        end_ty != "abnf_token_name"@,
        end_ty != "abnf_token_select"@,
        fuel > name_groups_tokens(groups, sel).len(),
    ensures
        crate::assemble::marker_count(flat_events(name_groups_tokens(groups, sel)))
            == groups.len() - 1,
        body_rel(
            name_groups_tokens(groups, sel) + seq![end_tok],
            end_ty,
            Seq::<DefView>::empty(),
            true,
            false,
            fuel,
            Ok(
                DefView::Select(
                    groups.map_values(
                        |g: Seq<TokView>| crate::assemble::collapse(rules_of(g)),
                    ),
                ),
            ),
        ),
{
    lemma_kinds_distinct();
    let ts = name_groups_tokens(groups, sel);
    let m = groups.map_values(|g: Seq<TokView>| rules_of(g));
    assert(flat_tokens(ts)) by {
        lemma_flat_of_groups(groups, sel);
    }
    lemma_compile_is_assembly_on_flat_bodies(ts, end_tok, end_ty, fuel);
    let rest = groups.drop_first();
    assert forall|i: int| 0 <= i < rest.len() implies name_tokens(#[trigger] rest[i]) by {
        assert(rest[i] == groups[i + 1]);
    }
    lemma_tail_tokens_flat(rest, sel);
    lemma_flat_events_concat(groups[0], name_group_tail_tokens(rest, sel));
    assert(ts =~= groups[0] + name_group_tail_tokens(rest, sel));
    lemma_flat_events_of_names(groups[0]);
    assert(m[0] == rules_of(groups[0]));
    assert(m.drop_first() =~= rest.map_values(|g: Seq<TokView>| rules_of(g)));
    assert(flat_events(ts) =~= crate::assemble::events_of_groups(m));
    assert forall|i: int| 0 <= i < m.len() implies (#[trigger] m[i]).len() >= 1 by {
        assert(m[i] == rules_of(groups[i]));
    }
    assert forall|i: int| 0 <= i < m.len() implies !(#[trigger] m[i][0] is Series) by {
        assert(m[i] == rules_of(groups[i]));
        assert(m[i][0] == DefView::Rule(groups[i][0].text));
    }
    crate::assemble::lemma_select_body(m);
    assert(groups.map_values(|g: Seq<TokView>| crate::assemble::collapse(rules_of(g)))
        =~= m.map_values(|g: Seq<DefView>| crate::assemble::collapse(g)));
}

/// Every token of a marker-separated body of rule-name runs is flat.
proof fn lemma_flat_of_groups(groups: Seq<Seq<TokView>>, sel: TokView)
    requires
        sel.ty == "abnf_token_select"@,
        forall|i: int| 0 <= i < groups.len() ==> name_tokens(#[trigger] groups[i]),
    ensures
        flat_tokens(name_groups_tokens(groups, sel)),
        flat_tokens(name_group_tail_tokens(groups, sel)),
    decreases groups.len(),
{
    if groups.len() == 0 {
    } else {
        let rest = groups.drop_first();
        assert forall|i: int| 0 <= i < rest.len() implies name_tokens(#[trigger] rest[i]) by {
            assert(rest[i] == groups[i + 1]);
        }
        lemma_flat_of_groups(rest, sel);
        let tail = name_group_tail_tokens(rest, sel);
        assert forall|j: int|
            0 <= j < name_groups_tokens(groups, sel).len() implies ((#[trigger] name_groups_tokens(
            groups,
            sel,
        )[j].ty) == "abnf_token_name"@ || name_groups_tokens(groups, sel)[j].ty
            == "abnf_token_select"@) by {
            let w = name_groups_tokens(groups, sel);
            if j < groups[0].len() {
                assert(w[j] == groups[0][j]);
            } else {
                assert(w[j] == tail[j - groups[0].len()]);
            }
        }
        let wt = name_group_tail_tokens(groups, sel);
        assert(wt == seq![sel] + groups[0] + tail);
        assert forall|j: int|
            0 <= j < wt.len() implies ((#[trigger] wt[j].ty) == "abnf_token_name"@ || wt[j].ty
            == "abnf_token_select"@) by {
            if j == 0 {
                assert(wt[0] == sel);
            } else if j < 1 + groups[0].len() {
                assert(wt[j] == groups[0][j - 1]);
            } else {
                assert(wt[j] == tail[j - 1 - groups[0].len()]);
            }
        }
    }
}

/// Whether one call of the compiler on engine `l0` against `src` consumed
/// the trace `ts`, left the engine in `l1` and returned `r`: either the
/// trace compiles exactly to `r`'s content, or the trace ends where the
/// tokenizer itself failed with the returned error.
pub open spec fn compile_outcome(
    l0: LexerState<BnfState>,
    src: Seq<char>,
    ts: Seq<TokView>,
    l1: LexerState<BnfState>,
    end_ty: Seq<char>,
    alts: Seq<DefView>,
    fresh: bool,
    saw: bool,
    fuel: nat,
    r: Result<Box<BnfDefinition>, ParseError>,
) -> bool {
    ||| (lex_steps(l0, src, ts, l1) && (match r {
        Ok(d) => body_rel(ts, end_ty, alts, fresh, saw, fuel, Ok((*d).dview())),
        Err(e) => body_rel(ts, end_ty, alts, fresh, saw, fuel, Err(e)),
    }))
    ||| (exists|m: LexerState<BnfState>, e: ParseError|
        r == Err::<Box<BnfDefinition>, ParseError>(e) && lex_steps(l0, src, ts, m)
            && #[trigger] step_err(m, src, e, l1))
}

/// The element-level token kinds are pairwise distinct names.
proof fn lemma_kinds_distinct()
    ensures
        "abnf_token_name"@ != "abnf_token_variable"@,
        "abnf_token_name"@ != "abnf_token_select"@,
        "abnf_token_name"@ != "abnf_token_terminal"@,
        "abnf_token_name"@ != "abnf_token_range"@,
        "abnf_token_name"@ != "abnf_requirement"@,
        "abnf_requirement"@ != "abnf_token_variable"@,
        "abnf_requirement"@ != "abnf_token_select"@,
        "abnf_requirement"@ != "abnf_token_terminal"@,
        "abnf_requirement"@ != "abnf_token_range"@,
        "abnf_token_terminal"@ != "abnf_token_variable"@,
        "abnf_token_terminal"@ != "abnf_token_select"@,
        "abnf_token_terminal"@ != "abnf_token_range"@,
        "abnf_token_range"@ != "abnf_token_variable"@,
        "abnf_token_range"@ != "abnf_token_select"@,
        "abnf_token_select"@ != "abnf_token_variable"@,
        "abnf_token_name"@ != "abnf_token_left_options"@,
        "abnf_token_name"@ != "abnf_token_left_parenthesis"@,
        "abnf_token_select"@ != "abnf_token_left_options"@,
        "abnf_token_select"@ != "abnf_token_left_parenthesis"@,
{
    reveal_strlit("abnf_token_name");
    reveal_strlit("abnf_token_variable");
    reveal_strlit("abnf_token_select");
    reveal_strlit("abnf_requirement");
    reveal_strlit("abnf_token_terminal");
    reveal_strlit("abnf_token_range");
    reveal_strlit("abnf_token_left_options");
    reveal_strlit("abnf_token_left_parenthesis");
    assert("abnf_token_left_options"@.len() == 23);
    assert("abnf_token_left_parenthesis"@.len() == 27);
    assert("abnf_token_name"@.len() == 15);
    assert("abnf_token_variable"@.len() == 19);
    assert("abnf_token_select"@.len() == 17);
    assert("abnf_requirement"@.len() == 16);
    assert("abnf_token_terminal"@.len() == 19);
    assert("abnf_token_range"@.len() == 16);
    assert("abnf_token_terminal"@[11] == 't');
    assert("abnf_token_variable"@[11] == 'v');
    assert("abnf_requirement"@[5] == 'r');
    assert("abnf_token_range"@[5] == 't');
}

/// The recursion-depth guard the compiler starts with: ample for any
/// source whose tokens each cover at least one character.
pub open spec fn compile_fuel(src: Seq<char>) -> nat {
    if src.len() < 1000000000 {
        (2 * src.len() + 16) as nat
    } else {
        usize::MAX as nat
    }
}

impl BnfDefinition {
    /// Compile one rule body from the ABNF tokenizer, up to the
    /// end-of-rule token.
    pub fn new(src: &str, abnf_lexer: &mut LexerState<BnfState>) -> (r: Result<
        Box<BnfDefinition>,
        ParseError,
    >)
        requires
            old(abnf_lexer).wf(),
        ensures
            final(abnf_lexer).wf(),
            final(abnf_lexer).same_config(old(abnf_lexer)),
            exists|ts: Seq<TokView>|
                #[trigger] compile_outcome(
                    *old(abnf_lexer),
                    src@,
                    ts,
                    *final(abnf_lexer),
                    "abnf_token_end"@,
                    Seq::<DefView>::empty(),
                    true,
                    false,
                    compile_fuel(src@),
                    r,
                ),
    {
        let src_len = src.unicode_len();
        let fuel: usize = if src_len < 1000000000 {
            2 * src_len + 16
        } else {
            usize::MAX
        };
        let (r, tr) = Self::impl_new(src, abnf_lexer, "abnf_token_end", Vec::new(), true, false, fuel);
        proof {
            lemma_dview_seq_empty();
            assert(compile_outcome(
                *old(abnf_lexer),
                src@,
                tr@,
                *final(abnf_lexer),
                "abnf_token_end"@,
                Seq::<DefView>::empty(),
                true,
                false,
                compile_fuel(src@),
                r,
            ));
        }
        r
    }

    /// One level of the recursive-descent compile: read tokens, land each
    /// parsed element, recurse for nested groups and options, and stop at
    /// the terminator kind. Returns the result together with the trace of
    /// the tokens consumed.
    fn impl_new(
        src: &str,
        lexer: &mut LexerState<BnfState>,
        end_ty: &str,
        alts: Vec<Box<BnfDefinition>>,
        fresh: bool,
        saw: bool,
        fuel: usize,
    ) -> (r: (Result<Box<BnfDefinition>, ParseError>, Ghost<Seq<TokView>>))
        requires
            old(lexer).wf(),
        ensures
            final(lexer).wf(),
            final(lexer).same_config(old(lexer)),
            compile_outcome(
                *old(lexer),
                src@,
                r.1@,
                *final(lexer),
                end_ty@,
                dview_seq(alts@),
                fresh,
                saw,
                fuel as nat,
                r.0,
            ),
        decreases fuel,
    {
        let ghost l0 = *lexer;
        let ghost alts0 = dview_seq(alts@);
        let mut alts = alts;
        if fuel == 0 {
            return (Err(ParseError::RecursionLimit), Ghost(Seq::<TokView>::empty()));
        }
        let tok = match lexer.next(src) {
            Ok(t) => t,
            Err(e) => {
                proof {
                    assert(lex_steps(l0, src@, Seq::<TokView>::empty(), l0));
                    assert(step_err(l0, src@, e, *lexer));
                }
                return (Err(e), Ghost(Seq::<TokView>::empty()));
            },
        };
        let ghost t0 = TokView { ty: tok.ty(), text: tok.text() };
        let ghost l1 = *lexer;
        proof {
            assert(step_ok(l0, src@, t0, l1));
        }
        let ty = tok.get_type();
        if str_eq(ty, end_ty) {
            let res = assemble_result(alts, saw);
            proof {
                assert(lex_steps(l1, src@, Seq::<TokView>::empty(), l1));
                lemma_lex_steps_cons(l0, src@, t0, l1, Seq::<TokView>::empty(), l1);
                assert(seq![t0] + Seq::<TokView>::empty() =~= seq![t0]);
                assert(seq![t0].drop_first() =~= Seq::<TokView>::empty());
                assert(body_rel(seq![t0], end_ty@, alts0, fresh, saw, fuel as nat, out_of(res)));
            }
            return (res, Ghost(Seq::<TokView>::empty().push(t0)));
        }
        if str_eq(ty, "abnf_token_left_options") || str_eq(ty, "abnf_token_left_parenthesis") {
            let close: &str = if str_eq(ty, "abnf_token_left_options") {
                "abnf_token_right_options"
            } else {
                "abnf_token_right_parenthesis"
            };
            proof {
                assert(close@ == close_of(t0.ty));
                lemma_dview_seq_empty();
            }
            let (inner_res, tr1) = Self::impl_new(
                src,
                lexer,
                close,
                Vec::new(),
                true,
                false,
                fuel - 1,
            );
            proof {
                if inner_res is Ok {
                    if !(lex_steps(l1, src@, tr1@, *lexer) && body_rel(
                        tr1@,
                        close_of(t0.ty),
                        Seq::<DefView>::empty(),
                        true,
                        false,
                        (fuel - 1) as nat,
                        Ok((*inner_res->Ok_0).dview()),
                    )) {
                        let (m, e) = choose|m: LexerState<BnfState>, e: ParseError|
                            inner_res == Err::<Box<BnfDefinition>, ParseError>(e) && lex_steps(
                                l1,
                                src@,
                                tr1@,
                                m,
                            ) && #[trigger] step_err(m, src@, e, *lexer);
                        assert(false);
                    }
                }
            }
            match inner_res {
                Err(e) => {
                    proof {
                        compose_error_case(
                            l0,
                            src@,
                            t0,
                            l1,
                            tr1@,
                            *lexer,
                            end_ty@,
                            alts0,
                            fresh,
                            saw,
                            fuel as nat,
                            e,
                        );
                    }
                    return (Err(e), Ghost(seq![t0] + tr1@));
                },
                Ok(inner) => {
                    let ghost iv = (*inner).dview();
                    let ghost l2 = *lexer;
                    let wrapped: Box<BnfDefinition> = if str_eq(ty, "abnf_token_left_options") {
                        Box::new(BnfDefinition::Options(inner))
                    } else {
                        Box::new(BnfDefinition::Group(inner))
                    };
                    proof {
                        assert((*wrapped).dview() == wrap_of(t0.ty, iv));
                    }
                    push_element(&mut alts, fresh, wrapped);
                    let (res, tr2) = Self::impl_new(src, lexer, end_ty, alts, false, saw, fuel - 1);
                    proof {
                        compose_nested_case(
                            l0,
                            src@,
                            t0,
                            l1,
                            tr1@,
                            l2,
                            tr2@,
                            *lexer,
                            end_ty@,
                            alts0,
                            fresh,
                            saw,
                            fuel as nat,
                            iv,
                            res,
                        );
                    }
                    return (res, Ghost(seq![t0] + tr1@ + tr2@));
                },
            }
        }
        if str_eq(ty, "abnf_token_name") || str_eq(ty, "abnf_requirement") {
            let node = Box::new(BnfDefinition::Rule(tok.get_value().to_owned()));
            let ghost elem = DefView::Rule(t0.text);
            proof {
                assert((*node).dview() == elem);
                lemma_kinds_distinct();
            }
            push_element(&mut alts, fresh, node);
            let (res, tr2) = Self::impl_new(src, lexer, end_ty, alts, false, saw, fuel - 1);
            proof {
                compose_plain_case(
                    l0,
                    src@,
                    t0,
                    l1,
                    tr2@,
                    *lexer,
                    end_ty@,
                    alts0,
                    fresh,
                    saw,
                    fuel as nat,
                    elem,
                    res,
                );
            }
            return (res, Ghost(seq![t0] + tr2@));
        }
        if str_eq(ty, "abnf_token_terminal") {
            let node = Box::new(BnfDefinition::Terminal(strip_terminal(tok.get_value())));
            let ghost elem = DefView::Terminal(terminal_text(t0.text));
            proof {
                assert((*node).dview() == elem);
                lemma_kinds_distinct();
            }
            push_element(&mut alts, fresh, node);
            let (res, tr2) = Self::impl_new(src, lexer, end_ty, alts, false, saw, fuel - 1);
            proof {
                compose_plain_case(
                    l0,
                    src@,
                    t0,
                    l1,
                    tr2@,
                    *lexer,
                    end_ty@,
                    alts0,
                    fresh,
                    saw,
                    fuel as nat,
                    elem,
                    res,
                );
            }
            return (res, Ghost(seq![t0] + tr2@));
        }
        if str_eq(ty, "abnf_token_range") {
            match Self::impl_range_new(tok.get_value()) {
                Err(e) => {
                    proof {
                        assert(lex_steps(l1, src@, Seq::<TokView>::empty(), l1));
                        lemma_lex_steps_cons(l0, src@, t0, l1, Seq::<TokView>::empty(), l1);
                        assert(seq![t0] + Seq::<TokView>::empty() =~= seq![t0]);
                        assert(seq![t0].drop_first() =~= Seq::<TokView>::empty());
                        assert(body_rel(
                            seq![t0],
                            end_ty@,
                            alts0,
                            fresh,
                            saw,
                            fuel as nat,
                            Err::<DefView, ParseError>(e),
                        ));
                    }
                    return (Err(e), Ghost(Seq::<TokView>::empty().push(t0)));
                },
                Ok(node) => {
                    let ghost elem = (*node).dview();
                    proof {
                        lemma_kinds_distinct();
                    }
                    push_element(&mut alts, fresh, node);
                    let (res, tr2) = Self::impl_new(src, lexer, end_ty, alts, false, saw, fuel - 1);
                    proof {
                        compose_plain_case(
                            l0,
                            src@,
                            t0,
                            l1,
                            tr2@,
                            *lexer,
                            end_ty@,
                            alts0,
                            fresh,
                            saw,
                            fuel as nat,
                            elem,
                            res,
                        );
                    }
                    return (res, Ghost(seq![t0] + tr2@));
                },
            }
        }
        if str_eq(ty, "abnf_token_select") {
            proof {
                lemma_kinds_distinct();
            }
            let (res, tr2) = Self::impl_new(src, lexer, end_ty, alts, true, true, fuel - 1);
            proof {
                compose_select_case(
                    l0,
                    src@,
                    t0,
                    l1,
                    tr2@,
                    *lexer,
                    end_ty@,
                    alts0,
                    fresh,
                    saw,
                    fuel as nat,
                    res,
                );
            }
            return (res, Ghost(seq![t0] + tr2@));
        }
        if str_eq(ty, "abnf_token_variable") {
            let (vres, tr1) = Self::impl_variable_new(src, lexer, tok.get_value(), fuel - 1);
            proof {
                if vres is Ok {
                    if !(lex_steps(l1, src@, tr1@, *lexer) && var_rel(
                        tr1@,
                        t0.text,
                        (fuel - 1) as nat,
                        Ok((*vres->Ok_0).dview()),
                    )) {
                        let (m, e) = choose|m: LexerState<BnfState>, e: ParseError|
                            vres == Err::<Box<BnfDefinition>, ParseError>(e) && lex_steps(
                                l1,
                                src@,
                                tr1@,
                                m,
                            ) && #[trigger] step_err(m, src@, e, *lexer);
                        assert(false);
                    }
                }
            }
            match vres {
                Err(e) => {
                    proof {
                        compose_var_error_case(
                            l0,
                            src@,
                            t0,
                            l1,
                            tr1@,
                            *lexer,
                            end_ty@,
                            alts0,
                            fresh,
                            saw,
                            fuel as nat,
                            e,
                        );
                    }
                    return (Err(e), Ghost(seq![t0] + tr1@));
                },
                Ok(node) => {
                    let ghost nv = (*node).dview();
                    let ghost l2 = *lexer;
                    push_element(&mut alts, fresh, node);
                    let (res, tr2) = Self::impl_new(src, lexer, end_ty, alts, false, saw, fuel - 1);
                    proof {
                        compose_var_case(
                            l0,
                            src@,
                            t0,
                            l1,
                            tr1@,
                            l2,
                            tr2@,
                            *lexer,
                            end_ty@,
                            alts0,
                            fresh,
                            saw,
                            fuel as nat,
                            nv,
                            res,
                        );
                    }
                    return (res, Ghost(seq![t0] + tr1@ + tr2@));
                },
            }
        }
        let out_err = if str_eq(ty, "abnf_token_eof") {
            ParseError::PrematureEnd
        } else {
            ParseError::UnknownTokenKind
        };
        proof {
            assert(lex_steps(l1, src@, Seq::<TokView>::empty(), l1));
            lemma_lex_steps_cons(l0, src@, t0, l1, Seq::<TokView>::empty(), l1);
            assert(seq![t0] + Seq::<TokView>::empty() =~= seq![t0]);
            assert(seq![t0].drop_first() =~= Seq::<TokView>::empty());
            assert(body_rel(
                seq![t0],
                end_ty@,
                alts0,
                fresh,
                saw,
                fuel as nat,
                Err::<DefView, ParseError>(out_err),
            ));
        }
        (Err(out_err), Ghost(Seq::<TokView>::empty().push(t0)))
    }

    /// The element a repetition count applies to: exactly one following
    /// leaf, group or optional group, wrapped in a `Repeat` node.
    fn impl_variable_new(
        src: &str,
        lexer: &mut LexerState<BnfState>,
        content: &str,
        fuel: usize,
    ) -> (r: (Result<Box<BnfDefinition>, ParseError>, Ghost<Seq<TokView>>))
        requires
            old(lexer).wf(),
        ensures
            final(lexer).wf(),
            final(lexer).same_config(old(lexer)),
            variable_outcome(
                *old(lexer),
                src@,
                r.1@,
                *final(lexer),
                content@,
                fuel as nat,
                r.0,
            ),
        decreases fuel,
    {
        let ghost l0 = *lexer;
        let (begin, end_times) = parse_repeat_bounds(content);
        if fuel == 0 {
            return (Err(ParseError::RecursionLimit), Ghost(Seq::<TokView>::empty()));
        }
        let tok = match lexer.next(src) {
            Ok(t) => t,
            Err(e) => {
                proof {
                    assert(lex_steps(l0, src@, Seq::<TokView>::empty(), l0));
                    assert(step_err(l0, src@, e, *lexer));
                }
                return (Err(e), Ghost(Seq::<TokView>::empty()));
            },
        };
        let ghost t0 = TokView { ty: tok.ty(), text: tok.text() };
        let ghost l1 = *lexer;
        proof {
            assert(step_ok(l0, src@, t0, l1));
        }
        let ty = tok.get_type();
        if str_eq(ty, "abnf_token_eof") {
            proof {
                assert(lex_steps(l1, src@, Seq::<TokView>::empty(), l1));
                lemma_lex_steps_cons(l0, src@, t0, l1, Seq::<TokView>::empty(), l1);
                assert(seq![t0] + Seq::<TokView>::empty() =~= seq![t0]);
                assert(seq![t0].drop_first() =~= Seq::<TokView>::empty());
                assert(var_rel(
                    seq![t0],
                    content@,
                    fuel as nat,
                    Err::<DefView, ParseError>(ParseError::PrematureEnd),
                ));
            }
            return (Err(ParseError::PrematureEnd), Ghost(Seq::<TokView>::empty().push(t0)));
        }
        if str_eq(ty, "abnf_token_left_options") || str_eq(ty, "abnf_token_left_parenthesis") {
            let close: &str = if str_eq(ty, "abnf_token_left_options") {
                "abnf_token_right_options"
            } else {
                "abnf_token_right_parenthesis"
            };
            proof {
                assert(close@ == close_of(t0.ty));
                lemma_dview_seq_empty();
            }
            let (inner_res, tr1) = Self::impl_new(
                src,
                lexer,
                close,
                Vec::new(),
                true,
                false,
                fuel - 1,
            );
            proof {
                if inner_res is Ok {
                    if !(lex_steps(l1, src@, tr1@, *lexer) && body_rel(
                        tr1@,
                        close_of(t0.ty),
                        Seq::<DefView>::empty(),
                        true,
                        false,
                        (fuel - 1) as nat,
                        Ok((*inner_res->Ok_0).dview()),
                    )) {
                        let (m, e) = choose|m: LexerState<BnfState>, e: ParseError|
                            inner_res == Err::<Box<BnfDefinition>, ParseError>(e) && lex_steps(
                                l1,
                                src@,
                                tr1@,
                                m,
                            ) && #[trigger] step_err(m, src@, e, *lexer);
                        assert(false);
                    }
                }
            }
            match inner_res {
                Err(e) => {
                    proof {
                        let ts_all = seq![t0] + tr1@;
                        assert(ts_all[0] == t0);
                        assert(ts_all.drop_first() =~= tr1@);
                        if lex_steps(l1, src@, tr1@, *lexer) && body_rel(
                            tr1@,
                            close_of(t0.ty),
                            Seq::<DefView>::empty(),
                            true,
                            false,
                            (fuel - 1) as nat,
                            Err(e),
                        ) {
                            lemma_lex_steps_cons(l0, src@, t0, l1, tr1@, *lexer);
                            assert(body_rel(
                                ts_all.drop_first(),
                                close_of(ts_all[0].ty),
                                Seq::<DefView>::empty(),
                                true,
                                false,
                                (fuel - 1) as nat,
                                Err::<DefView, ParseError>(e),
                            ));
                            assert(err_witness(e));
                            assert(var_rel(
                                ts_all,
                                content@,
                                fuel as nat,
                                Err::<DefView, ParseError>(e),
                            ));
                        } else {
                            let (m, e2) = choose|m: LexerState<BnfState>, e2: ParseError|
                                Err::<Box<BnfDefinition>, ParseError>(e) == Err::<
                                    Box<BnfDefinition>,
                                    ParseError,
                                >(e2) && lex_steps(l1, src@, tr1@, m) && #[trigger] step_err(
                                    m,
                                    src@,
                                    e2,
                                    *lexer,
                                );
                            lemma_lex_steps_cons(l0, src@, t0, l1, tr1@, m);
                            assert(step_err(m, src@, e2, *lexer));
                        }
                    }
                    return (Err(e), Ghost(seq![t0] + tr1@));
                },
                Ok(inner) => {
                    let ghost iv = (*inner).dview();
                    let wrapped: Box<BnfDefinition> = if str_eq(ty, "abnf_token_left_options") {
                        Box::new(BnfDefinition::Options(inner))
                    } else {
                        Box::new(BnfDefinition::Group(inner))
                    };
                    proof {
                        assert((*wrapped).dview() == wrap_of(t0.ty, iv));
                    }
                    let node = Box::new(
                        BnfDefinition::Repeat((begin, end_times, wrapped)),
                    );
                    proof {
                        let ts_all = seq![t0] + tr1@;
                        assert(ts_all[0] == t0);
                        assert(ts_all.drop_first() =~= tr1@);
                        lemma_lex_steps_cons(l0, src@, t0, l1, tr1@, *lexer);
                        assert((*node).dview() == DefView::Repeat(
                            begin.rview(),
                            end_times.rview(),
                            Box::new(wrap_of(t0.ty, iv)),
                        ));
                        assert(body_rel(
                            ts_all.drop_first(),
                            close_of(ts_all[0].ty),
                            Seq::<DefView>::empty(),
                            true,
                            false,
                            (fuel - 1) as nat,
                            Ok(iv),
                        ));
                        assert(split_witness(0, iv));
                        assert(var_rel(ts_all, content@, fuel as nat, Ok((*node).dview())));
                    }
                    return (Ok(node), Ghost(seq![t0] + tr1@));
                },
            }
        }
        if str_eq(ty, "abnf_token_name") || str_eq(ty, "abnf_requirement") {
            let inner = Box::new(BnfDefinition::Rule(tok.get_value().to_owned()));
            proof {
                assert((*inner).dview() == DefView::Rule(t0.text));
            }
            let node = Box::new(BnfDefinition::Repeat((begin, end_times, inner)));
            proof {
                assert((*node).dview() == DefView::Repeat(
                    begin.rview(),
                    end_times.rview(),
                    Box::new(DefView::Rule(t0.text)),
                ));
                assert(lex_steps(l1, src@, Seq::<TokView>::empty(), l1));
                lemma_lex_steps_cons(l0, src@, t0, l1, Seq::<TokView>::empty(), l1);
                assert(seq![t0] + Seq::<TokView>::empty() =~= seq![t0]);
                assert(seq![t0].drop_first() =~= Seq::<TokView>::empty());
                assert(var_rel(seq![t0], content@, fuel as nat, Ok((*node).dview())));
            }
            return (Ok(node), Ghost(Seq::<TokView>::empty().push(t0)));
        }
        if str_eq(ty, "abnf_token_terminal") {
            let inner = Box::new(BnfDefinition::Terminal(strip_terminal(tok.get_value())));
            proof {
                assert((*inner).dview() == DefView::Terminal(terminal_text(t0.text)));
            }
            let node = Box::new(BnfDefinition::Repeat((begin, end_times, inner)));
            proof {
                assert((*node).dview() == DefView::Repeat(
                    begin.rview(),
                    end_times.rview(),
                    Box::new(DefView::Terminal(terminal_text(t0.text))),
                ));
                assert(lex_steps(l1, src@, Seq::<TokView>::empty(), l1));
                lemma_lex_steps_cons(l0, src@, t0, l1, Seq::<TokView>::empty(), l1);
                assert(seq![t0] + Seq::<TokView>::empty() =~= seq![t0]);
                assert(seq![t0].drop_first() =~= Seq::<TokView>::empty());
                assert(var_rel(seq![t0], content@, fuel as nat, Ok((*node).dview())));
            }
            return (Ok(node), Ghost(Seq::<TokView>::empty().push(t0)));
        }
        proof {
            assert(lex_steps(l1, src@, Seq::<TokView>::empty(), l1));
            lemma_lex_steps_cons(l0, src@, t0, l1, Seq::<TokView>::empty(), l1);
            assert(seq![t0] + Seq::<TokView>::empty() =~= seq![t0]);
            assert(seq![t0].drop_first() =~= Seq::<TokView>::empty());
            assert(var_rel(
                seq![t0],
                content@,
                fuel as nat,
                Err::<DefView, ParseError>(ParseError::UnknownTokenKind),
            ));
        }
        (Err(ParseError::UnknownTokenKind), Ghost(Seq::<TokView>::empty().push(t0)))
    }
}

/// Whether one call of the repetition-element reader on engine `l0`
/// consumed the trace `ts`, left the engine in `l1` and returned `r`.
pub open spec fn variable_outcome(
    l0: LexerState<BnfState>,
    src: Seq<char>,
    ts: Seq<TokView>,
    l1: LexerState<BnfState>,
    content: Seq<char>,
    fuel: nat,
    r: Result<Box<BnfDefinition>, ParseError>,
) -> bool {
    ||| (lex_steps(l0, src, ts, l1) && (match r {
        Ok(d) => var_rel(ts, content, fuel, Ok((*d).dview())),
        Err(e) => var_rel(ts, content, fuel, Err(e)),
    }))
    ||| (exists|m: LexerState<BnfState>, e: ParseError|
        r == Err::<Box<BnfDefinition>, ParseError>(e) && lex_steps(l0, src, ts, m)
            && #[trigger] step_err(m, src, e, l1))
}

/// The body result `r` carries, as a compile outcome.
pub open spec fn out_of(r: Result<Box<BnfDefinition>, ParseError>) -> Result<
    DefView,
    ParseError,
> {
    match r {
        Ok(d) => Ok((*d).dview()),
        Err(e) => Err(e),
    }
}

/// The kinds whose handling lands one plain element and reads on.
pub open spec fn plain_elem_matches(t0: TokView, elem: DefView) -> bool {
    ||| ((t0.ty == "abnf_token_name"@ || t0.ty == "abnf_requirement"@) && elem == DefView::Rule(
        t0.text,
    ))
    ||| (t0.ty == "abnf_token_terminal"@ && elem == DefView::Terminal(terminal_text(t0.text)))
    ||| (t0.ty == "abnf_token_range"@ && (match range_of_text(t0.text) {
        Ok(b) => elem == DefView::Range(b.0, b.1),
        Err(_) => false,
    }))
}

/// The disequalities that make the plain-element branch the one taken.
pub open spec fn plain_branch_taken(t0: TokView, end_ty: Seq<char>) -> bool {
    &&& t0.ty != end_ty
    &&& t0.ty != "abnf_token_left_options"@
    &&& t0.ty != "abnf_token_left_parenthesis"@
    &&& t0.ty != "abnf_token_variable"@
    &&& t0.ty != "abnf_token_select"@
}

/// Reading one plain element and then the rest of the body compiles the
/// whole from the element's landing.
#[verifier::rlimit(100)]
proof fn compose_plain_case(
    l0: LexerState<BnfState>,
    src: Seq<char>,
    t0: TokView,
    l1: LexerState<BnfState>,
    tr2: Seq<TokView>,
    lf: LexerState<BnfState>,
    end_ty: Seq<char>,
    alts0: Seq<DefView>,
    fresh: bool,
    saw: bool,
    fuel: nat,
    elem: DefView,
    res: Result<Box<BnfDefinition>, ParseError>,
)
    requires
        fuel >= 1,
        step_ok(l0, src, t0, l1),
        plain_branch_taken(t0, end_ty),
        plain_elem_matches(t0, elem),
        compile_outcome(
            l1,
            src,
            tr2,
            lf,
            end_ty,
            step_elem(alts0, fresh, elem),
            false,
            saw,
            (fuel - 1) as nat,
            res,
        ),
    ensures
        compile_outcome(l0, src, seq![t0] + tr2, lf, end_ty, alts0, fresh, saw, fuel, res),
{
    lemma_kinds_distinct();
    let ts_all = seq![t0] + tr2;
    assert(ts_all[0] == t0);
    assert(ts_all.drop_first() =~= tr2);
    if lex_steps(l1, src, tr2, lf) && body_rel(
        tr2,
        end_ty,
        step_elem(alts0, fresh, elem),
        false,
        saw,
        (fuel - 1) as nat,
        out_of(res),
    ) {
        lemma_lex_steps_cons(l0, src, t0, l1, tr2, lf);
        assert(body_rel(ts_all, end_ty, alts0, fresh, saw, fuel, out_of(res)));
    } else {
        let (m, e) = choose|m: LexerState<BnfState>, e: ParseError|
            res == Err::<Box<BnfDefinition>, ParseError>(e) && lex_steps(l1, src, tr2, m)
                && #[trigger] step_err(m, src, e, lf);
        lemma_lex_steps_cons(l0, src, t0, l1, tr2, m);
        assert(step_err(m, src, e, lf));
    }
}

/// Reading the alternation marker and then the rest of the body compiles
/// the whole with a fresh alternative begun.
#[verifier::rlimit(100)]
proof fn compose_select_case(
    l0: LexerState<BnfState>,
    src: Seq<char>,
    t0: TokView,
    l1: LexerState<BnfState>,
    tr2: Seq<TokView>,
    lf: LexerState<BnfState>,
    end_ty: Seq<char>,
    alts0: Seq<DefView>,
    fresh: bool,
    saw: bool,
    fuel: nat,
    res: Result<Box<BnfDefinition>, ParseError>,
)
    requires
        fuel >= 1,
        step_ok(l0, src, t0, l1),
        t0.ty == "abnf_token_select"@,
        t0.ty != end_ty,
        t0.ty != "abnf_token_left_options"@,
        t0.ty != "abnf_token_left_parenthesis"@,
        t0.ty != "abnf_token_name"@,
        t0.ty != "abnf_requirement"@,
        t0.ty != "abnf_token_terminal"@,
        t0.ty != "abnf_token_range"@,
        t0.ty != "abnf_token_variable"@,
        compile_outcome(l1, src, tr2, lf, end_ty, alts0, true, true, (fuel - 1) as nat, res),
    ensures
        compile_outcome(l0, src, seq![t0] + tr2, lf, end_ty, alts0, fresh, saw, fuel, res),
{
    lemma_kinds_distinct();
    let ts_all = seq![t0] + tr2;
    assert(ts_all[0] == t0);
    assert(ts_all.drop_first() =~= tr2);
    if lex_steps(l1, src, tr2, lf) && body_rel(
        tr2,
        end_ty,
        alts0,
        true,
        true,
        (fuel - 1) as nat,
        out_of(res),
    ) {
        lemma_lex_steps_cons(l0, src, t0, l1, tr2, lf);
        assert(body_rel(ts_all, end_ty, alts0, fresh, saw, fuel, out_of(res)));
    } else {
        let (m, e) = choose|m: LexerState<BnfState>, e: ParseError|
            res == Err::<Box<BnfDefinition>, ParseError>(e) && lex_steps(l1, src, tr2, m)
                && #[trigger] step_err(m, src, e, lf);
        lemma_lex_steps_cons(l0, src, t0, l1, tr2, m);
        assert(step_err(m, src, e, lf));
    }
}

/// Reading a nesting token, its compiled body and then the rest compiles
/// the whole from the wrapped node's landing.
#[verifier::rlimit(100)]
proof fn compose_nested_case(
    l0: LexerState<BnfState>,
    src: Seq<char>,
    t0: TokView,
    l1: LexerState<BnfState>,
    tr1: Seq<TokView>,
    l2: LexerState<BnfState>,
    tr2: Seq<TokView>,
    lf: LexerState<BnfState>,
    end_ty: Seq<char>,
    alts0: Seq<DefView>,
    fresh: bool,
    saw: bool,
    fuel: nat,
    iv: DefView,
    res: Result<Box<BnfDefinition>, ParseError>,
)
    requires
        fuel >= 1,
        step_ok(l0, src, t0, l1),
        t0.ty != end_ty,
        t0.ty == "abnf_token_left_options"@ || t0.ty == "abnf_token_left_parenthesis"@,
        lex_steps(l1, src, tr1, l2),
        body_rel(
            tr1,
            close_of(t0.ty),
            Seq::<DefView>::empty(),
            true,
            false,
            (fuel - 1) as nat,
            Ok(iv),
        ),
        compile_outcome(
            l2,
            src,
            tr2,
            lf,
            end_ty,
            step_elem(alts0, fresh, wrap_of(t0.ty, iv)),
            false,
            saw,
            (fuel - 1) as nat,
            res,
        ),
    ensures
        compile_outcome(l0, src, seq![t0] + tr1 + tr2, lf, end_ty, alts0, fresh, saw, fuel, res),
{
    lemma_kinds_distinct();
    let ts_all = seq![t0] + tr1 + tr2;
    let rest = tr1 + tr2;
    assert(ts_all =~= seq![t0] + rest);
    assert((seq![t0] + rest)[0] == t0);
    assert((seq![t0] + rest).drop_first() =~= rest);
    let k = tr1.len() as int;
    assert(rest.subrange(0, k) =~= tr1);
    assert(rest.subrange(k, rest.len() as int) =~= tr2);
    if lex_steps(l2, src, tr2, lf) && body_rel(
        tr2,
        end_ty,
        step_elem(alts0, fresh, wrap_of(t0.ty, iv)),
        false,
        saw,
        (fuel - 1) as nat,
        out_of(res),
    ) {
        lemma_lex_steps_concat(l1, src, tr1, l2, tr2, lf);
        lemma_lex_steps_cons(l0, src, t0, l1, rest, lf);
        let drest = ts_all.drop_first();
        assert(drest == rest);
        assert(body_rel(
            drest.subrange(0, k),
            close_of(ts_all[0].ty),
            Seq::<DefView>::empty(),
            true,
            false,
            (fuel - 1) as nat,
            Ok(iv),
        ));
        assert(body_rel(
            drest.subrange(k, drest.len() as int),
            end_ty,
            step_elem(alts0, fresh, wrap_of(ts_all[0].ty, iv)),
            false,
            saw,
            (fuel - 1) as nat,
            out_of(res),
        ));
        assert(split_witness(k, iv));
        assert(body_rel(ts_all, end_ty, alts0, fresh, saw, fuel, out_of(res)));
    } else {
        let (m, e) = choose|m: LexerState<BnfState>, e: ParseError|
            res == Err::<Box<BnfDefinition>, ParseError>(e) && lex_steps(l2, src, tr2, m)
                && #[trigger] step_err(m, src, e, lf);
        lemma_lex_steps_concat(l1, src, tr1, l2, tr2, m);
        lemma_lex_steps_cons(l0, src, t0, l1, rest, m);
        assert(step_err(m, src, e, lf));
    }
}

/// Reading a nesting token whose body fails propagates the body's failure.
#[verifier::rlimit(100)]
proof fn compose_error_case(
    l0: LexerState<BnfState>,
    src: Seq<char>,
    t0: TokView,
    l1: LexerState<BnfState>,
    tr1: Seq<TokView>,
    lf: LexerState<BnfState>,
    end_ty: Seq<char>,
    alts0: Seq<DefView>,
    fresh: bool,
    saw: bool,
    fuel: nat,
    e: ParseError,
)
    requires
        fuel >= 1,
        step_ok(l0, src, t0, l1),
        t0.ty != end_ty,
        t0.ty == "abnf_token_left_options"@ || t0.ty == "abnf_token_left_parenthesis"@,
        compile_outcome(
            l1,
            src,
            tr1,
            lf,
            close_of(t0.ty),
            Seq::<DefView>::empty(),
            true,
            false,
            (fuel - 1) as nat,
            Err(e),
        ),
    ensures
        compile_outcome(
            l0,
            src,
            seq![t0] + tr1,
            lf,
            end_ty,
            alts0,
            fresh,
            saw,
            fuel,
            Err::<Box<BnfDefinition>, ParseError>(e),
        ),
{
    lemma_kinds_distinct();
    let ts_all = seq![t0] + tr1;
    assert(ts_all[0] == t0);
    assert(ts_all.drop_first() =~= tr1);
    if lex_steps(l1, src, tr1, lf) && body_rel(
        tr1,
        close_of(t0.ty),
        Seq::<DefView>::empty(),
        true,
        false,
        (fuel - 1) as nat,
        Err(e),
    ) {
        lemma_lex_steps_cons(l0, src, t0, l1, tr1, lf);
        assert(body_rel(
            ts_all.drop_first(),
            close_of(ts_all[0].ty),
            Seq::<DefView>::empty(),
            true,
            false,
            (fuel - 1) as nat,
            Err::<DefView, ParseError>(e),
        ));
        assert(err_witness(e));
        assert(body_rel(
            ts_all,
            end_ty,
            alts0,
            fresh,
            saw,
            fuel,
            Err::<DefView, ParseError>(e),
        ));
    } else {
        let (m, e2) = choose|m: LexerState<BnfState>, e2: ParseError|
            Err::<Box<BnfDefinition>, ParseError>(e) == Err::<Box<BnfDefinition>, ParseError>(e2)
                && lex_steps(l1, src, tr1, m) && #[trigger] step_err(m, src, e2, lf);
        lemma_lex_steps_cons(l0, src, t0, l1, tr1, m);
        assert(step_err(m, src, e2, lf));
    }
}

/// Reading a repetition token, its element and then the rest compiles the
/// whole from the repeated node's landing.
#[verifier::rlimit(100)]
proof fn compose_var_case(
    l0: LexerState<BnfState>,
    src: Seq<char>,
    t0: TokView,
    l1: LexerState<BnfState>,
    tr1: Seq<TokView>,
    l2: LexerState<BnfState>,
    tr2: Seq<TokView>,
    lf: LexerState<BnfState>,
    end_ty: Seq<char>,
    alts0: Seq<DefView>,
    fresh: bool,
    saw: bool,
    fuel: nat,
    nv: DefView,
    res: Result<Box<BnfDefinition>, ParseError>,
)
    requires
        fuel >= 1,
        step_ok(l0, src, t0, l1),
        t0.ty == "abnf_token_variable"@,
        t0.ty != end_ty,
        t0.ty != "abnf_token_left_options"@,
        t0.ty != "abnf_token_left_parenthesis"@,
        t0.ty != "abnf_token_name"@,
        t0.ty != "abnf_requirement"@,
        t0.ty != "abnf_token_terminal"@,
        t0.ty != "abnf_token_range"@,
        lex_steps(l1, src, tr1, l2),
        var_rel(tr1, t0.text, (fuel - 1) as nat, Ok(nv)),
        compile_outcome(
            l2,
            src,
            tr2,
            lf,
            end_ty,
            step_elem(alts0, fresh, nv),
            false,
            saw,
            (fuel - 1) as nat,
            res,
        ),
    ensures
        compile_outcome(l0, src, seq![t0] + tr1 + tr2, lf, end_ty, alts0, fresh, saw, fuel, res),
{
    lemma_kinds_distinct();
    let ts_all = seq![t0] + tr1 + tr2;
    let rest = tr1 + tr2;
    assert(ts_all =~= seq![t0] + rest);
    assert((seq![t0] + rest)[0] == t0);
    assert((seq![t0] + rest).drop_first() =~= rest);
    let k = tr1.len() as int;
    assert(rest.subrange(0, k) =~= tr1);
    assert(rest.subrange(k, rest.len() as int) =~= tr2);
    if lex_steps(l2, src, tr2, lf) && body_rel(
        tr2,
        end_ty,
        step_elem(alts0, fresh, nv),
        false,
        saw,
        (fuel - 1) as nat,
        out_of(res),
    ) {
        lemma_lex_steps_concat(l1, src, tr1, l2, tr2, lf);
        lemma_lex_steps_cons(l0, src, t0, l1, rest, lf);
        let drest = ts_all.drop_first();
        assert(drest == rest);
        assert(var_rel(drest.subrange(0, k), ts_all[0].text, (fuel - 1) as nat, Ok(nv)));
        assert(body_rel(
            drest.subrange(k, drest.len() as int),
            end_ty,
            step_elem(alts0, fresh, nv),
            false,
            saw,
            (fuel - 1) as nat,
            out_of(res),
        ));
        assert(split_witness(k, nv));
        assert(body_rel(ts_all, end_ty, alts0, fresh, saw, fuel, out_of(res)));
    } else {
        let (m, e) = choose|m: LexerState<BnfState>, e: ParseError|
            res == Err::<Box<BnfDefinition>, ParseError>(e) && lex_steps(l2, src, tr2, m)
                && #[trigger] step_err(m, src, e, lf);
        lemma_lex_steps_concat(l1, src, tr1, l2, tr2, m);
        lemma_lex_steps_cons(l0, src, t0, l1, rest, m);
        assert(step_err(m, src, e, lf));
    }
}

/// Reading a repetition token whose element fails propagates the failure.
#[verifier::rlimit(100)]
proof fn compose_var_error_case(
    l0: LexerState<BnfState>,
    src: Seq<char>,
    t0: TokView,
    l1: LexerState<BnfState>,
    tr1: Seq<TokView>,
    lf: LexerState<BnfState>,
    end_ty: Seq<char>,
    alts0: Seq<DefView>,
    fresh: bool,
    saw: bool,
    fuel: nat,
    e: ParseError,
)
    requires
        fuel >= 1,
        step_ok(l0, src, t0, l1),
        t0.ty == "abnf_token_variable"@,
        t0.ty != end_ty,
        t0.ty != "abnf_token_left_options"@,
        t0.ty != "abnf_token_left_parenthesis"@,
        t0.ty != "abnf_token_name"@,
        t0.ty != "abnf_requirement"@,
        t0.ty != "abnf_token_terminal"@,
        t0.ty != "abnf_token_range"@,
        variable_outcome(l1, src, tr1, lf, t0.text, (fuel - 1) as nat, Err(e)),
    ensures
        compile_outcome(
            l0,
            src,
            seq![t0] + tr1,
            lf,
            end_ty,
            alts0,
            fresh,
            saw,
            fuel,
            Err::<Box<BnfDefinition>, ParseError>(e),
        ),
{
    lemma_kinds_distinct();
    let ts_all = seq![t0] + tr1;
    assert(ts_all[0] == t0);
    assert(ts_all.drop_first() =~= tr1);
    if lex_steps(l1, src, tr1, lf) && var_rel(tr1, t0.text, (fuel - 1) as nat, Err(e)) {
        lemma_lex_steps_cons(l0, src, t0, l1, tr1, lf);
        assert(var_rel(
            ts_all.drop_first(),
            ts_all[0].text,
            (fuel - 1) as nat,
            Err::<DefView, ParseError>(e),
        ));
        assert(err_witness(e));
        assert(body_rel(
            ts_all,
            end_ty,
            alts0,
            fresh,
            saw,
            fuel,
            Err::<DefView, ParseError>(e),
        ));
    } else {
        let (m, e2) = choose|m: LexerState<BnfState>, e2: ParseError|
            Err::<Box<BnfDefinition>, ParseError>(e) == Err::<Box<BnfDefinition>, ParseError>(e2)
                && lex_steps(l1, src, tr1, m) && #[trigger] step_err(m, src, e2, lf);
        lemma_lex_steps_cons(l0, src, t0, l1, tr1, m);
        assert(step_err(m, src, e2, lf));
    }
}

} // verus!


