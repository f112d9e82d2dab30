//! The grammar of script files: a recursive-descent parser from text to parse tree.
use vstd::prelude::*;
use vstd::std_specs::iter::IteratorSpec;

use crate::builder::{all_digits, is_digit};
use crate::tree::{matches_view, Pair, PairView, Rule};

verus! {

broadcast use vstd::string::axiom_spec_iter, vstd::string::next_postcondition;

/// The characters of a text, in order.
pub(crate) fn chars_of(text: &str) -> (r: Vec<char>)
    ensures
        r@ == text@,
{
    let mut it = text.chars();
    let mut out: Vec<char> = Vec::new();
    loop
        invariant_except_break
            out@ + it.remaining() == text@,
            it.obeys_prophetic_iter_laws(),
            it.decrease() is Some,
        ensures
            out@ == text@,
        decreases it.decrease()->0,
    {
        match it.next() {
            Some(c) => {
                out.push(c);
                assert(out@ + it.remaining() =~= text@);
            },
            None => {
                assert(out@ =~= text@);
                break;
            },
        }
    }
    out
}

/// Where a script stops following the grammar: the number of characters before the
/// first that could not be parsed.
#[derive(Debug, Clone, Copy, PartialEq, Eq)]
pub struct SyntaxError {
    pub position: usize,
}

/// An operand node: a number, a string literal, or a parenthesised expression.
pub open spec fn primary_shape(p: Pair) -> bool
    decreases p, 1nat,
{
    match p.rule {
        Rule::Number => all_digits(p.text@),
        Rule::Str => p.inner@.len() == 1 && p.inner@[0].rule == Rule::StrContent,
        Rule::Expr => expr_shape(p),
        _ => false,
    }
}

/// An expression node: operands at even positions, `+` operators between them.
pub open spec fn expr_shape(p: Pair) -> bool
    decreases p, 0nat,
{
    &&& p.rule == Rule::Expr
    &&& p.inner@.len() % 2 == 1
    &&& forall|i: int|
        0 <= i < p.inner@.len() ==> if i % 2 == 0 {
            primary_shape(#[trigger] p.inner@[i])
        } else {
            p.inner@[i].rule == Rule::Add
        }
}

/// A stage command node: one child, the command itself.
pub open spec fn stage_shape(p: Pair) -> bool {
    &&& p.rule == Rule::StageCommand
    &&& p.inner@.len() == 1
    &&& command_shape(p.inner@[0])
}

/// A command node of one of the five kinds, with the children the kind requires.
pub open spec fn command_shape(c: Pair) -> bool {
    match c.rule {
        Rule::BackgroundChange | Rule::SceneChange | Rule::ActChange => c.inner@.len() == 1
            && expr_shape(c.inner@[0]),
        Rule::GuiChange => c.inner@.len() == 2 && c.inner@[0].rule == Rule::GuiElement && expr_shape(
            c.inner@[1],
        ),
        Rule::CharacterChange => 2 <= c.inner@.len() <= 3 && c.inner@[0].rule == Rule::CharacterName
            && c.inner@[1].rule == Rule::CharacterAction && (c.inner@.len() == 3
            ==> c.inner@[2].rule == Rule::EmotionName),
        _ => false,
    }
}

/// A code node: a log statement of one or more expressions.
pub open spec fn code_shape(p: Pair) -> bool {
    &&& p.rule == Rule::Code
    &&& p.inner@.len() == 1
    &&& p.inner@[0].rule == Rule::Log
    &&& p.inner@[0].inner@.len() >= 1
    &&& forall|i: int| 0 <= i < p.inner@[0].inner@.len() ==> expr_shape(#[trigger] p.inner@[0].inner@[i])
}

/// Where the body of a dialogue node starts: after the name and the emotion, if any.
pub open spec fn dialogue_start(p: Pair) -> int {
    if p.inner@.len() > 1 && p.inner@[1].rule == Rule::DialogueEmotionChange {
        2
    } else {
        1
    }
}

/// A part of a dialogue body: a run of text or an embedded stage command.
pub open spec fn dialogue_part_shape(q: Pair) -> bool {
    (q.rule == Rule::Expr && expr_shape(q)) || stage_shape(q)
}

/// A dialogue node: the character's name, an optional emotion, then a body that starts
/// with text.
pub open spec fn dialogue_shape(p: Pair) -> bool {
    let start = dialogue_start(p);
    &&& p.rule == Rule::Dialogue
    &&& p.inner@[0].rule == Rule::CharacterName
    &&& start == 2 ==> p.inner@[1].inner@.len() == 1 && p.inner@[1].inner@[0].rule == Rule::EmotionName
    &&& p.inner@.len() > start
    &&& p.inner@[start].rule == Rule::Expr
    &&& forall|i: int| start <= i < p.inner@.len() ==> dialogue_part_shape(#[trigger] p.inner@[i])
}

/// A statement node of a scene.
pub open spec fn statement_shape(q: Pair) -> bool {
    code_shape(q) || stage_shape(q) || dialogue_shape(q)
}

/// A scene node: its id, then its statements.
pub open spec fn scene_shape(q: Pair) -> bool {
    &&& q.rule == Rule::Scene
    &&& q.inner@.len() >= 1
    &&& q.inner@[0].rule == Rule::SceneId
    &&& forall|i: int| 1 <= i < q.inner@.len() ==> statement_shape(#[trigger] q.inner@[i])
}

/// An act node: its scenes, then the end of input.
pub open spec fn act_shape(p: Pair) -> bool {
    &&& p.rule == Rule::Act
    &&& p.inner@.len() >= 1
    &&& p.inner@[p.inner@.len() - 1].rule == Rule::Eoi
    &&& forall|i: int| 0 <= i < p.inner@.len() - 1 ==> scene_shape(#[trigger] p.inner@[i])
}

/// Whether a character may stand in a name.
pub open spec fn is_name_char(c: char) -> bool {
    ('a' <= c <= 'z') || ('A' <= c <= 'Z') || ('0' <= c <= '9') || c == '_'
}

/// Whether a character is white space between tokens.
pub open spec fn is_space(c: char) -> bool {
    c == ' ' || c == '\t' || c == '\n' || c == '\r'
}

/// The number of characters from `pos` on that satisfy `f`, up to the first that does not.
pub open spec fn run_len(s: Seq<char>, pos: int, f: spec_fn(char) -> bool) -> nat
    decreases s.len() - pos,
{
    if 0 <= pos < s.len() && f(s[pos]) {
        1 + run_len(s, pos + 1, f)
    } else {
        0
    }
}

/// The white space from `pos` on.
pub open spec fn space_len(s: Seq<char>, pos: int) -> nat {
    run_len(s, pos, |c: char| is_space(c))
}

/// The name characters from `pos` on.
pub open spec fn name_len(s: Seq<char>, pos: int) -> nat {
    run_len(s, pos, |c: char| is_name_char(c))
}

/// The decimal digits from `pos` on.
pub open spec fn digits_len(s: Seq<char>, pos: int) -> nat {
    run_len(s, pos, |c: char| is_digit(c))
}

/// The characters from `pos` on up to a double quote.
pub open spec fn quoted_len(s: Seq<char>, pos: int) -> nat {
    run_len(s, pos, |c: char| c != '"')
}

/// Whether the character at `pos` is `c`.
pub open spec fn char_at(s: Seq<char>, pos: int, c: char) -> bool {
    0 <= pos < s.len() && s[pos] == c
}

/// The length of `w` if the text at `pos` starts with it.
pub open spec fn lit_len(s: Seq<char>, pos: int, w: Seq<char>) -> Option<nat> {
    if 0 <= pos && pos + w.len() <= s.len() && s.subrange(pos, pos + w.len()) == w {
        Some(w.len())
    } else {
        None
    }
}

/// A string literal at `pos`: a double quote, anything but a double quote, a double quote.
pub open spec fn string_len(s: Seq<char>, pos: int) -> Option<nat> {
    if char_at(s, pos, '"') && char_at(s, pos + 1 + quoted_len(s, pos + 1), '"') {
        Some(quoted_len(s, pos + 1) + 2)
    } else {
        None
    }
}

/// An operand at `pos`: a string literal, a number, or an expression in parentheses.
pub open spec fn primary_len(s: Seq<char>, pos: int) -> Option<nat>
    decreases s.len() - pos, 1nat,
{
    if pos < 0 || pos > s.len() {
        None
    } else if string_len(s, pos) is Some {
        string_len(s, pos)
    } else if digits_len(s, pos) > 0 {
        Some(digits_len(s, pos))
    } else if char_at(s, pos, '(') {
        let a = pos + 1 + space_len(s, pos + 1);
        if a > s.len() {
            None
        } else {
            match expr_len(s, a) {
                Some(k) => {
                    let c = a + k + space_len(s, a + k);
                    if char_at(s, c, ')') {
                        Some((c + 1 - pos) as nat)
                    } else {
                        None
                    }
                },
                None => None,
            }
        }
    } else {
        None
    }
}

/// An expression at `pos`: an operand, then any number of `+` and operand.
pub open spec fn expr_len(s: Seq<char>, pos: int) -> Option<nat>
    decreases s.len() - pos, 2nat,
{
    if pos < 0 || pos > s.len() {
        None
    } else {
        match primary_len(s, pos) {
            Some(k) => {
                if pos + k <= s.len() {
                    Some(k + sum_tail_len(s, pos + k))
                } else {
                    None
                }
            },
            None => None,
        }
    }
}

/// The further `+` and operand pairs after the operand that ends at `end`.
pub open spec fn sum_tail_len(s: Seq<char>, end: int) -> nat
    decreases s.len() - end, 0nat,
{
    if end < 0 || end > s.len() {
        0
    } else {
        let a = end + space_len(s, end);
        if char_at(s, a, '+') {
            let b = a + 1 + space_len(s, a + 1);
            if b > s.len() {
                0
            } else {
                match primary_len(s, b) {
                    Some(k) => {
                        if b + k <= s.len() {
                            (b + k - end) as nat + sum_tail_len(s, b + k)
                        } else {
                            0
                        }
                    },
                    None => 0,
                }
            }
        } else {
            0
        }
    }
}

/// A keyword, at least one space, and an expression.
pub open spec fn expr_command_len(s: Seq<char>, pos: int, w: Seq<char>) -> Option<nat> {
    match lit_len(s, pos, w) {
        Some(k) => {
            let a = pos + k;
            let sp = space_len(s, a);
            if sp > 0 {
                match expr_len(s, a + sp) {
                    Some(e) => Some(k + sp + e),
                    None => None,
                }
            } else {
                None
            }
        },
        None => None,
    }
}

/// `gui`, a space, a target name, a space, an expression.
pub open spec fn gui_change_len(s: Seq<char>, pos: int) -> Option<nat> {
    match lit_len(s, pos, "gui"@) {
        None => None,
        Some(k) => {
            let a = pos + k;
            let b = a + space_len(s, a);
            if space_len(s, a) == 0 || name_len(s, b) == 0 {
                None
            } else {
                let c = b + name_len(s, b);
                let d = c + space_len(s, c);
                if space_len(s, c) == 0 {
                    None
                } else {
                    match expr_len(s, d) {
                        Some(e) => Some((d + e - pos) as nat),
                        None => None,
                    }
                }
            }
        },
    }
}

/// The verb of a character change at `pos`: `fade in`, `fade out`, or a name.
pub open spec fn action_len(s: Seq<char>, pos: int) -> nat {
    match lit_len(s, pos, "fade in"@) {
        Some(k) => k,
        None => match lit_len(s, pos, "fade out"@) {
            Some(k) => k,
            None => name_len(s, pos),
        },
    }
}

/// Where a character change whose verb ends at `e` ends: after an `[emotion]` that
/// follows, if one does.
pub open spec fn emotion_end(s: Seq<char>, e: int) -> int {
    let f = e + space_len(s, e);
    if char_at(s, f, '[') {
        let g = f + 1 + space_len(s, f + 1);
        if name_len(s, g) > 0 {
            let h = g + name_len(s, g);
            let i = h + space_len(s, h);
            if char_at(s, i, ']') {
                i + 1
            } else {
                e
            }
        } else {
            e
        }
    } else {
        e
    }
}

/// `character`, a space, a name, a space, a verb, and an optional `[emotion]`.
pub open spec fn character_change_len(s: Seq<char>, pos: int) -> Option<nat> {
    match lit_len(s, pos, "character"@) {
        None => None,
        Some(k) => {
            let a = pos + k;
            let b = a + space_len(s, a);
            if space_len(s, a) == 0 || name_len(s, b) == 0 {
                None
            } else {
                let c = b + name_len(s, b);
                let d = c + space_len(s, c);
                if space_len(s, c) == 0 || action_len(s, d) == 0 {
                    None
                } else {
                    Some((emotion_end(s, d + action_len(s, d)) - pos) as nat)
                }
            }
        },
    }
}

/// A stage command at `pos`: the first of the five kinds of command that matches.
pub open spec fn stage_len(s: Seq<char>, pos: int) -> Option<nat> {
    if expr_command_len(s, pos, "background"@) is Some {
        expr_command_len(s, pos, "background"@)
    } else if gui_change_len(s, pos) is Some {
        gui_change_len(s, pos)
    } else if expr_command_len(s, pos, "scene"@) is Some {
        expr_command_len(s, pos, "scene"@)
    } else if expr_command_len(s, pos, "act"@) is Some {
        expr_command_len(s, pos, "act"@)
    } else {
        character_change_len(s, pos)
    }
}

/// The further `,` and expression pairs of a log statement after the expression that
/// ends at `end`.
pub open spec fn args_tail_len(s: Seq<char>, end: int) -> nat
    decreases s.len() - end,
{
    if end < 0 || end > s.len() {
        0
    } else {
        let a = end + space_len(s, end);
        if char_at(s, a, ',') {
            let b = a + 1 + space_len(s, a + 1);
            match expr_len(s, b) {
                Some(k) => {
                    if b + k <= s.len() {
                        (b + k - end) as nat + args_tail_len(s, b + k)
                    } else {
                        0
                    }
                },
                None => 0,
            }
        } else {
            0
        }
    }
}

/// `log(`, one or more expressions separated by commas, `)`.
pub open spec fn code_len(s: Seq<char>, pos: int) -> Option<nat> {
    match lit_len(s, pos, "log"@) {
        None => None,
        Some(k) => {
            let b = pos + k + space_len(s, pos + k);
            if !char_at(s, b, '(') {
                None
            } else {
                let c = b + 1 + space_len(s, b + 1);
                match expr_len(s, c) {
                    None => None,
                    Some(e) => {
                        let end = c + e + args_tail_len(s, c + e);
                        let f = end + space_len(s, end);
                        if char_at(s, f, ')') {
                            Some((f + 1 - pos) as nat)
                        } else {
                            None
                        }
                    },
                }
            }
        },
    }
}

/// A part of a dialogue body: an expression, or a stage command in braces.
pub open spec fn dialogue_part_len(s: Seq<char>, pos: int) -> Option<nat> {
    if expr_len(s, pos) is Some {
        expr_len(s, pos)
    } else if char_at(s, pos, '{') {
        let a = pos + 1 + space_len(s, pos + 1);
        match stage_len(s, a) {
            None => None,
            Some(k) => {
                let b = a + k + space_len(s, a + k);
                if char_at(s, b, '}') {
                    Some((b + 1 - pos) as nat)
                } else {
                    None
                }
            },
        }
    } else {
        None
    }
}

/// The further parts of a dialogue body after the part that ends at `end`.
pub open spec fn dialogue_tail_len(s: Seq<char>, end: int) -> nat
    decreases s.len() - end,
{
    if end < 0 || end > s.len() {
        0
    } else {
        let d = end + space_len(s, end);
        match dialogue_part_len(s, d) {
            Some(k) => {
                if d + k <= s.len() && k > 0 {
                    (d + k - end) as nat + dialogue_tail_len(s, d + k)
                } else {
                    0
                }
            },
            None => 0,
        }
    }
}

/// Where the colon of a dialogue line is sought, after the optional `[emotion]` that may
/// stand at `b`.
pub open spec fn colon_pos(s: Seq<char>, b: int) -> Option<int> {
    if char_at(s, b, '[') {
        let c = b + 1 + space_len(s, b + 1);
        if name_len(s, c) == 0 {
            None
        } else {
            let d = c + name_len(s, c);
            let e = d + space_len(s, d);
            if char_at(s, e, ']') {
                Some(e + 1 + space_len(s, e + 1))
            } else {
                None
            }
        }
    } else {
        Some(b)
    }
}

/// A dialogue line: a name, an optional `[emotion]`, a colon, and a body that starts with
/// an expression.
pub open spec fn dialogue_len(s: Seq<char>, pos: int) -> Option<nat> {
    if name_len(s, pos) == 0 {
        None
    } else {
        let a = pos + name_len(s, pos);
        match colon_pos(s, a + space_len(s, a)) {
            None => None,
            Some(b) => {
                if !char_at(s, b, ':') {
                    None
                } else {
                    let c = b + 1 + space_len(s, b + 1);
                    match expr_len(s, c) {
                        None => None,
                        Some(e) => Some((c + e + dialogue_tail_len(s, c + e) - pos) as nat),
                    }
                }
            },
        }
    }
}

/// A statement: a log statement, a stage command or a dialogue line, the first that
/// matches.
pub open spec fn statement_len(s: Seq<char>, pos: int) -> Option<nat> {
    if code_len(s, pos) is Some {
        code_len(s, pos)
    } else if stage_len(s, pos) is Some {
        stage_len(s, pos)
    } else {
        dialogue_len(s, pos)
    }
}

/// The statements of a scene body from `end` on.
pub open spec fn body_len(s: Seq<char>, end: int) -> nat
    decreases s.len() - end,
{
    if end < 0 || end > s.len() {
        0
    } else {
        let e = end + space_len(s, end);
        match statement_len(s, e) {
            Some(k) => {
                if e + k <= s.len() && k > 0 {
                    (e + k - end) as nat + body_len(s, e + k)
                } else {
                    0
                }
            },
            None => 0,
        }
    }
}

/// A scene at `pos`: `SCENE`, its id in double quotes, and its statements in braces. The
/// length of the scene, or the position where it stops following the grammar.
pub open spec fn scene_result(s: Seq<char>, pos: int) -> Result<nat, int> {
    match lit_len(s, pos, "SCENE"@) {
        None => Err(pos),
        Some(k) => {
            let b = pos + k + space_len(s, pos + k);
            if !char_at(s, b, '"') {
                Err(b)
            } else {
                let c = b + 1 + quoted_len(s, b + 1);
                if c >= s.len() {
                    Err(b)
                } else {
                    let d = c + 1 + space_len(s, c + 1);
                    if !char_at(s, d, '{') {
                        Err(d)
                    } else {
                        let end = d + 1 + body_len(s, d + 1);
                        let f = end + space_len(s, end);
                        if char_at(s, f, '}') {
                            Ok((f + 1 - pos) as nat)
                        } else {
                            Err(f)
                        }
                    }
                }
            }
        },
    }
}

/// The scenes from `pos` to the end of the text, each followed by white space; or the
/// position where the first that fails stops following the grammar.
pub open spec fn scenes_result(s: Seq<char>, pos: int) -> Result<(), int>
    decreases s.len() - pos,
{
    if pos < 0 || pos >= s.len() {
        Ok(())
    } else {
        match scene_result(s, pos) {
            Err(e) => Err(e),
            Ok(k) => {
                let q = pos + k + space_len(s, pos + k);
                if k > 0 && q <= s.len() {
                    scenes_result(s, q)
                } else {
                    Ok(())
                }
            },
        }
    }
}

/// A script: white space, then scenes up to the end of the text.
pub open spec fn script_result(s: Seq<char>) -> Result<(), int> {
    scenes_result(s, space_len(s, 0) as int)
}

/// The view of a node of the rule that matched the text from `a` to `b`, with children.
pub open spec fn node_view(s: Seq<char>, rule: Rule, a: int, b: int, inner: Seq<PairView>) -> PairView {
    PairView { rule, text: s.subrange(a, b), inner }
}

/// The view of a node without children.
pub open spec fn leaf_view(s: Seq<char>, rule: Rule, a: int, b: int) -> PairView {
    node_view(s, rule, a, b, Seq::empty())
}

/// The node of the operand at `pos`, where [`primary_len`] matches.
pub open spec fn primary_view(s: Seq<char>, pos: int) -> PairView
    decreases s.len() - pos, 1nat,
{
    if pos < 0 || pos > s.len() {
        leaf_view(s, Rule::Eoi, pos, pos)
    } else if string_len(s, pos) is Some {
        node_view(
            s,
            Rule::Str,
            pos,
            pos + string_len(s, pos)->0,
            seq![leaf_view(s, Rule::StrContent, pos + 1, pos + 1 + quoted_len(s, pos + 1))],
        )
    } else if digits_len(s, pos) > 0 {
        leaf_view(s, Rule::Number, pos, pos + digits_len(s, pos))
    } else {
        let a = pos + 1 + space_len(s, pos + 1);
        if a > s.len() {
            leaf_view(s, Rule::Eoi, pos, pos)
        } else {
            expr_view(s, a)
        }
    }
}

/// The node of the expression at `pos`, where [`expr_len`] matches.
pub open spec fn expr_view(s: Seq<char>, pos: int) -> PairView
    decreases s.len() - pos, 2nat,
{
    if pos < 0 || pos > s.len() {
        leaf_view(s, Rule::Eoi, pos, pos)
    } else {
        let k = match primary_len(s, pos) {
            Some(k) => k as int,
            None => 0,
        };
        let tail = if pos + k <= s.len() {
            sum_tail_views(s, pos + k)
        } else {
            Seq::empty()
        };
        node_view(
            s,
            Rule::Expr,
            pos,
            pos + match expr_len(s, pos) {
                Some(n) => n as int,
                None => 0,
            },
            seq![primary_view(s, pos)] + tail,
        )
    }
}

/// The `+` and operand nodes that [`sum_tail_len`] matches after `end`.
pub open spec fn sum_tail_views(s: Seq<char>, end: int) -> Seq<PairView>
    decreases s.len() - end, 0nat,
{
    if end < 0 || end > s.len() {
        Seq::empty()
    } else {
        let a = end + space_len(s, end);
        if char_at(s, a, '+') {
            let b = a + 1 + space_len(s, a + 1);
            if b > s.len() {
                Seq::empty()
            } else {
                match primary_len(s, b) {
                    Some(k) => {
                        if b + k <= s.len() {
                            seq![leaf_view(s, Rule::Add, a, a + 1), primary_view(s, b)]
                                + sum_tail_views(s, b + k)
                        } else {
                            Seq::empty()
                        }
                    },
                    None => Seq::empty(),
                }
            }
        } else {
            Seq::empty()
        }
    }
}

/// The node of a command made of a keyword and an expression, at `pos`.
pub open spec fn expr_command_view(s: Seq<char>, pos: int, w: Seq<char>, rule: Rule) -> PairView {
    let a = pos + w.len();
    node_view(
        s,
        rule,
        pos,
        pos + expr_command_len(s, pos, w)->0,
        seq![expr_view(s, a + space_len(s, a))],
    )
}

/// The node of a GUI change at `pos`.
pub open spec fn gui_change_view(s: Seq<char>, pos: int) -> PairView {
    let a = pos + 3;
    let b = a + space_len(s, a);
    let c = b + name_len(s, b);
    let d = c + space_len(s, c);
    node_view(
        s,
        Rule::GuiChange,
        pos,
        pos + gui_change_len(s, pos)->0,
        seq![leaf_view(s, Rule::GuiElement, b, c), expr_view(s, d)],
    )
}

/// The node of a character change at `pos`.
pub open spec fn character_change_view(s: Seq<char>, pos: int) -> PairView {
    let a = pos + 9;
    let b = a + space_len(s, a);
    let c = b + name_len(s, b);
    let d = c + space_len(s, c);
    let e = d + action_len(s, d);
    let f = e + space_len(s, e);
    let g = f + 1 + space_len(s, f + 1);
    let emotion = if emotion_end(s, e) != e {
        seq![leaf_view(s, Rule::EmotionName, g, g + name_len(s, g))]
    } else {
        Seq::empty()
    };
    node_view(
        s,
        Rule::CharacterChange,
        pos,
        emotion_end(s, e),
        seq![leaf_view(s, Rule::CharacterName, b, c), leaf_view(s, Rule::CharacterAction, d, e)]
            + emotion,
    )
}

/// The node of the stage command at `pos`, where [`stage_len`] matches.
pub open spec fn stage_view(s: Seq<char>, pos: int) -> PairView {
    let command = if expr_command_len(s, pos, "background"@) is Some {
        expr_command_view(s, pos, "background"@, Rule::BackgroundChange)
    } else if gui_change_len(s, pos) is Some {
        gui_change_view(s, pos)
    } else if expr_command_len(s, pos, "scene"@) is Some {
        expr_command_view(s, pos, "scene"@, Rule::SceneChange)
    } else if expr_command_len(s, pos, "act"@) is Some {
        expr_command_view(s, pos, "act"@, Rule::ActChange)
    } else {
        character_change_view(s, pos)
    };
    node_view(s, Rule::StageCommand, pos, pos + stage_len(s, pos)->0, seq![command])
}

/// The `,` separated expression nodes that [`args_tail_len`] matches after `end`.
pub open spec fn args_tail_views(s: Seq<char>, end: int) -> Seq<PairView>
    decreases s.len() - end,
{
    if end < 0 || end > s.len() {
        Seq::empty()
    } else {
        let a = end + space_len(s, end);
        if char_at(s, a, ',') {
            let b = a + 1 + space_len(s, a + 1);
            match expr_len(s, b) {
                Some(k) => {
                    if b + k <= s.len() {
                        seq![expr_view(s, b)] + args_tail_views(s, b + k)
                    } else {
                        Seq::empty()
                    }
                },
                None => Seq::empty(),
            }
        } else {
            Seq::empty()
        }
    }
}

/// The node of the log statement at `pos`, where [`code_len`] matches.
pub open spec fn code_view(s: Seq<char>, pos: int) -> PairView {
    let b = pos + 3 + space_len(s, pos + 3);
    let c = b + 1 + space_len(s, b + 1);
    let e = expr_len(s, c)->0;
    let end = pos + code_len(s, pos)->0;
    node_view(
        s,
        Rule::Code,
        pos,
        end,
        seq![node_view(s, Rule::Log, pos, end, seq![expr_view(s, c)] + args_tail_views(s, c + e))],
    )
}

/// The node of the dialogue part at `pos`, where [`dialogue_part_len`] matches.
pub open spec fn dialogue_part_view(s: Seq<char>, pos: int) -> PairView {
    if expr_len(s, pos) is Some {
        expr_view(s, pos)
    } else {
        stage_view(s, pos + 1 + space_len(s, pos + 1))
    }
}

/// The part nodes that [`dialogue_tail_len`] matches after `end`.
pub open spec fn dialogue_tail_views(s: Seq<char>, end: int) -> Seq<PairView>
    decreases s.len() - end,
{
    if end < 0 || end > s.len() {
        Seq::empty()
    } else {
        let d = end + space_len(s, end);
        match dialogue_part_len(s, d) {
            Some(k) => {
                if d + k <= s.len() && k > 0 {
                    seq![dialogue_part_view(s, d)] + dialogue_tail_views(s, d + k)
                } else {
                    Seq::empty()
                }
            },
            None => Seq::empty(),
        }
    }
}

/// The node of the dialogue line at `pos`, where [`dialogue_len`] matches.
pub open spec fn dialogue_view(s: Seq<char>, pos: int) -> PairView {
    let a = pos + name_len(s, pos);
    let b = a + space_len(s, a);
    let c = b + 1 + space_len(s, b + 1);
    let d = c + name_len(s, c);
    let e = d + space_len(s, d);
    let emotion = if char_at(s, b, '[') {
        seq![node_view(s, Rule::DialogueEmotionChange, b, e + 1, seq![leaf_view(s, Rule::EmotionName, c, d)])]
    } else {
        Seq::empty()
    };
    let colon = colon_pos(s, b)->0;
    let x = colon + 1 + space_len(s, colon + 1);
    let k = expr_len(s, x)->0;
    node_view(
        s,
        Rule::Dialogue,
        pos,
        pos + dialogue_len(s, pos)->0,
        seq![leaf_view(s, Rule::CharacterName, pos, a)] + emotion + seq![expr_view(s, x)]
            + dialogue_tail_views(s, x + k),
    )
}

/// The node of the statement at `pos`, where [`statement_len`] matches.
#[verifier::opaque]
pub open spec fn statement_view(s: Seq<char>, pos: int) -> PairView {
    if code_len(s, pos) is Some {
        code_view(s, pos)
    } else if stage_len(s, pos) is Some {
        stage_view(s, pos)
    } else {
        dialogue_view(s, pos)
    }
}

/// The statement nodes that [`body_len`] matches from `end` on.
pub open spec fn body_views(s: Seq<char>, end: int) -> Seq<PairView>
    decreases s.len() - end,
{
    if end < 0 || end > s.len() {
        Seq::empty()
    } else {
        let e = end + space_len(s, end);
        match statement_len(s, e) {
            Some(k) => {
                if e + k <= s.len() && k > 0 {
                    seq![statement_view(s, e)] + body_views(s, e + k)
                } else {
                    Seq::empty()
                }
            },
            None => Seq::empty(),
        }
    }
}

/// The node of the scene at `pos`, where [`scene_result`] matches.
#[verifier::opaque]
pub open spec fn scene_view(s: Seq<char>, pos: int) -> PairView {
    let b = pos + 5 + space_len(s, pos + 5);
    let c = b + 1 + quoted_len(s, b + 1);
    let d = c + 1 + space_len(s, c + 1);
    node_view(
        s,
        Rule::Scene,
        pos,
        pos + scene_result(s, pos)->Ok_0,
        seq![leaf_view(s, Rule::SceneId, b + 1, c)] + body_views(s, d + 1),
    )
}

/// The scene nodes that [`scenes_result`] matches from `pos` on.
pub open spec fn scenes_views(s: Seq<char>, pos: int) -> Seq<PairView>
    decreases s.len() - pos,
{
    if pos < 0 || pos >= s.len() {
        Seq::empty()
    } else {
        match scene_result(s, pos) {
            Err(_) => Seq::empty(),
            Ok(k) => {
                let q = pos + k + space_len(s, pos + k);
                if k > 0 && q <= s.len() {
                    seq![scene_view(s, pos)] + scenes_views(s, q)
                } else {
                    Seq::empty()
                }
            },
        }
    }
}

/// The tree that a script parses to: its scenes, then the end of input.
pub open spec fn tree_of(s: Seq<char>) -> PairView {
    node_view(
        s,
        Rule::Act,
        0,
        s.len() as int,
        scenes_views(s, space_len(s, 0) as int) + seq![leaf_view(s, Rule::Eoi, s.len() as int, s.len() as int)],
    )
}

/// Whether `p` is the tree that the script parses to.
pub open spec fn parses_to(s: Seq<char>, p: Pair) -> bool {
    script_result(s) is Ok && matches_view(p, tree_of(s))
}

/// A node and the position just after the text it matched.
struct Parsed {
    node: Pair,
    end: usize,
}

fn is_name_char_exec(c: char) -> (r: bool)
    ensures
        r == is_name_char(c),
{
    ('a' <= c && c <= 'z') || ('A' <= c && c <= 'Z') || ('0' <= c && c <= '9') || c == '_'
}

struct Cursor<'a> {
    text: &'a str,
    chars: Vec<char>,
}

impl<'a> Cursor<'a> {
    spec fn wf(&self) -> bool {
        self.chars@ == self.text@ && self.chars@.len() < usize::MAX
    }

    spec fn len(&self) -> nat {
        self.chars@.len()
    }

    fn at(&self, pos: usize, c: char) -> (r: bool)
        ensures
            r == char_at(self.chars@, pos as int, c),
    {
        pos < self.chars.len() && self.chars[pos] == c
    }

    fn skip_ws(&self, pos: usize) -> (r: usize)
        requires
            self.wf(),
            pos <= self.len(),
        ensures
            pos <= r <= self.len(),
            r == pos + space_len(self.chars@, pos as int),
    {
        let mut i = pos;
        while i < self.chars.len()
            invariant
                pos <= i <= self.chars@.len(),
                pos + space_len(self.chars@, pos as int) == i + space_len(self.chars@, i as int),
            decreases self.chars@.len() - i,
        {
            let c = self.chars[i];
            if !(c == ' ' || c == '\t' || c == '\n' || c == '\r') {
                return i;
            }
            i = i + 1;
        }
        i
    }

    /// At least one space.
    fn skip_ws1(&self, pos: usize) -> (r: Option<usize>)
        requires
            self.wf(),
            pos <= self.len(),
        ensures
            r is Some <==> space_len(self.chars@, pos as int) > 0,
            r is Some ==> r->0 == pos + space_len(self.chars@, pos as int) <= self.len(),
    {
        let e = self.skip_ws(pos);
        if e > pos {
            Some(e)
        } else {
            None
        }
    }

    fn lit(&self, pos: usize, word: &str) -> (r: Option<usize>)
        requires
            self.wf(),
            pos <= self.len(),
        ensures
            r is Some <==> lit_len(self.chars@, pos as int, word@) is Some,
            r is Some ==> r->0 == pos + word@.len() <= self.len(),
    {
        let n = word.unicode_len();
        if n > self.chars.len() - pos {
            return None;
        }
        let mut i: usize = 0;
        while i < n
            invariant
                self.wf(),
                n == word@.len(),
                pos + n <= self.chars@.len(),
                i <= n,
                forall|j: int| 0 <= j < i ==> self.chars@[pos + j] == word@[j],
            decreases n - i,
        {
            if self.chars[pos + i] != word.get_char(i) {
                assert(self.chars@.subrange(pos as int, pos + n)[i as int] != word@[i as int]);
                return None;
            }
            i = i + 1;
        }
        assert(self.chars@.subrange(pos as int, pos + n) =~= word@);
        Some(pos + n)
    }

    fn name(&self, pos: usize) -> (r: Option<usize>)
        requires
            self.wf(),
            pos <= self.len(),
        ensures
            r is Some <==> name_len(self.chars@, pos as int) > 0,
            r is Some ==> r->0 == pos + name_len(self.chars@, pos as int) <= self.len(),
    {
        let mut i = pos;
        while i < self.chars.len() && is_name_char_exec(self.chars[i])
            invariant
                pos <= i <= self.chars@.len(),
                pos + name_len(self.chars@, pos as int) == i + name_len(self.chars@, i as int),
            decreases self.chars@.len() - i,
        {
            i = i + 1;
        }
        if i > pos {
            Some(i)
        } else {
            None
        }
    }

    fn leaf(&self, rule: Rule, a: usize, b: usize) -> (r: Pair)
        requires
            self.wf(),
            a <= b <= self.len(),
        ensures
            r.rule == rule,
            r.inner@.len() == 0,
            r.text@ == self.chars@.subrange(a as int, b as int),
    {
        Pair { rule, text: self.text.substring_char(a, b).to_owned(), inner: Vec::new() }
    }

    fn number(&self, pos: usize) -> (r: Option<Parsed>)
        requires
            self.wf(),
            pos <= self.len(),
        ensures
            r is Some <==> digits_len(self.chars@, pos as int) > 0,
            r is Some ==> r->0.end == pos + digits_len(self.chars@, pos as int) <= self.len()
                && r->0.node.rule == Rule::Number && all_digits(r->0.node.text@),
            r is Some ==> matches_view(
                r->0.node,
                leaf_view(self.chars@, Rule::Number, pos as int, r->0.end as int),
            ),
    {
        let mut i = pos;
        while i < self.chars.len() && '0' <= self.chars[i] && self.chars[i] <= '9'
            invariant
                pos <= i <= self.chars@.len(),
                forall|j: int| pos <= j < i ==> #[trigger] is_digit(self.chars@[j]),
                pos + digits_len(self.chars@, pos as int) == i + digits_len(self.chars@, i as int),
            decreases self.chars@.len() - i,
        {
            i = i + 1;
        }
        if i == pos {
            return None;
        }
        let p = self.leaf(Rule::Number, pos, i);
        assert forall|j: int| 0 <= j < p.text@.len() implies #[trigger] is_digit(p.text@[j]) by {
            assert(p.text@[j] == self.chars@[pos + j]);
        }
        Some(Parsed { node: p, end: i })
    }

    fn string(&self, pos: usize) -> (r: Option<Parsed>)
        requires
            self.wf(),
            pos <= self.len(),
        ensures
            r is Some <==> string_len(self.chars@, pos as int) is Some,
            r is Some ==> r->0.end == pos + string_len(self.chars@, pos as int)->0 <= self.len()
                && r->0.node.rule == Rule::Str && r->0.node.inner@.len() == 1
                && r->0.node.inner@[0].rule == Rule::StrContent,
            r is Some ==> matches_view(
                r->0.node,
                node_view(
                    self.chars@,
                    Rule::Str,
                    pos as int,
                    r->0.end as int,
                    seq![
                        leaf_view(
                            self.chars@,
                            Rule::StrContent,
                            pos + 1,
                            pos + 1 + quoted_len(self.chars@, pos + 1),
                        ),
                    ],
                ),
            ),
    {
        if !self.at(pos, '"') {
            return None;
        }
        let mut i = pos + 1;
        while i < self.chars.len() && self.chars[i] != '"'
            invariant
                self.wf(),
                pos < i <= self.chars@.len(),
                pos + 1 + quoted_len(self.chars@, pos + 1) == i + quoted_len(self.chars@, i as int),
            decreases self.chars@.len() - i,
        {
            i = i + 1;
        }
        if i >= self.chars.len() {
            return None;
        }
        let content = self.leaf(Rule::StrContent, pos + 1, i);
        let mut p = self.leaf(Rule::Str, pos, i + 1);
        p.inner.push(content);
        assert(matches_view(p.inner@[0], leaf_view(self.chars@, Rule::StrContent, pos + 1, i as int)));
        Some(Parsed { node: p, end: i + 1 })
    }

    fn primary(&self, pos: usize) -> (r: Option<Parsed>)
        requires
            self.wf(),
            pos <= self.len(),
        ensures
            r is Some <==> primary_len(self.chars@, pos as int) is Some,
            r is Some ==> r->0.end == pos + primary_len(self.chars@, pos as int)->0,
            r is Some ==> pos < r->0.end <= self.len() && primary_shape(r->0.node),
            r is Some ==> matches_view(r->0.node, primary_view(self.chars@, pos as int)),
        decreases self.len() - pos, 0nat,
    {
        if let Some(found) = self.string(pos) {
            return Some(found);
        }
        if let Some(found) = self.number(pos) {
            return Some(found);
        }
        if self.at(pos, '(') {
            let a = self.skip_ws(pos + 1);
            if let Some(found) = self.expr(a) {
                let c = self.skip_ws(found.end);
                if self.at(c, ')') {
                    return Some(Parsed { node: found.node, end: c + 1 });
                }
            }
        }
        None
    }

    fn expr(&self, pos: usize) -> (r: Option<Parsed>)
        requires
            self.wf(),
            pos <= self.len(),
        ensures
            r is Some <==> expr_len(self.chars@, pos as int) is Some,
            r is Some ==> r->0.end == pos + expr_len(self.chars@, pos as int)->0,
            r is Some ==> pos < r->0.end <= self.len() && expr_shape(r->0.node),
            r is Some ==> matches_view(r->0.node, expr_view(self.chars@, pos as int)),
        decreases self.len() - pos, 1nat,
    {
        let first = match self.primary(pos) {
            Some(found) => found,
            None => return None,
        };
        let mut end = first.end;
        let ghost s = self.chars@;
        let ghost k0 = (first.end - pos) as int;
        let ghost target = seq![primary_view(s, pos as int)] + sum_tail_views(s, pos + k0);
        let ghost mut built: Seq<PairView> = seq![primary_view(s, pos as int)];
        let mut inner: Vec<Pair> = Vec::new();
        inner.push(first.node);
        loop
            invariant
                self.wf(),
                s == self.chars@,
                pos < end <= self.len(),
                pos + k0 <= self.len(),
                built.len() == inner@.len(),
                forall|i: int| 0 <= i < inner@.len() ==> matches_view(#[trigger] inner@[i], built[i]),
                target == built + sum_tail_views(s, end as int),
                pos + k0 + sum_tail_len(s, pos + k0) == end + sum_tail_len(s, end as int),
                inner@.len() % 2 == 1,
                forall|i: int|
                    0 <= i < inner@.len() ==> if i % 2 == 0 {
                        primary_shape(#[trigger] inner@[i])
                    } else {
                        inner@[i].rule == Rule::Add
                    },
            ensures
                sum_tail_len(s, end as int) == 0,
                sum_tail_views(s, end as int) == Seq::<PairView>::empty(),
            decreases self.len() - end,
        {
            let a = self.skip_ws(end);
            if !self.at(a, '+') {
                assert(sum_tail_len(s, end as int) == 0);
                break;
            }
            let b = self.skip_ws(a + 1);
            match self.primary(b) {
                Some(operand) => {
                    let add = self.leaf(Rule::Add, a, a + 1);
                    let ghost pair = seq![leaf_view(s, Rule::Add, a as int, a + 1), primary_view(s, b as int)];
                    assert(sum_tail_views(s, end as int) == pair + sum_tail_views(s, operand.end as int));
                    inner.push(add);
                    inner.push(operand.node);
                    proof {
                        assert(target =~= (built + pair) + sum_tail_views(s, operand.end as int));
                        built = built + pair;
                    }
                    end = operand.end;
                },
                None => {
                    assert(sum_tail_len(s, end as int) == 0);
                    break;
                },
            }
        }
        assert(built =~= target);
        let p = Pair { rule: Rule::Expr, text: self.text.substring_char(pos, end).to_owned(), inner };
        Some(Parsed { node: p, end })
    }

    fn node(&self, rule: Rule, a: usize, b: usize, inner: Vec<Pair>) -> (r: Pair)
        requires
            self.wf(),
            a <= b <= self.len(),
        ensures
            r.rule == rule,
            r.inner == inner,
            r.text@ == self.chars@.subrange(a as int, b as int),
    {
        Pair { rule, text: self.text.substring_char(a, b).to_owned(), inner }
    }

    /// A keyword, at least one space, and an expression.
    fn expr_command(&self, pos: usize, keyword: &str, rule: Rule) -> (r: Option<Parsed>)
        requires
            self.wf(),
            pos <= self.len(),
        ensures
            r is Some <==> expr_command_len(self.chars@, pos as int, keyword@) is Some,
            r is Some ==> r->0.end == pos + expr_command_len(self.chars@, pos as int, keyword@)->0,
            r is Some ==> pos < r->0.end <= self.len() && r->0.node.rule == rule
                && r->0.node.inner@.len() == 1 && expr_shape(r->0.node.inner@[0]),
            r is Some ==> matches_view(r->0.node, expr_command_view(self.chars@, pos as int, keyword@, rule)),
    {
        let a = self.lit(pos, keyword)?;
        let b = self.skip_ws1(a)?;
        let e = self.expr(b)?;
        let mut inner: Vec<Pair> = Vec::new();
        inner.push(e.node);
        let node = self.node(rule, pos, e.end, inner);
        assert(matches_view(node.inner@[0], expr_command_view(self.chars@, pos as int, keyword@, rule).inner[0]));
        Some(Parsed { node, end: e.end })
    }

    /// `gui` target sprite-expression.
    fn gui_change(&self, pos: usize) -> (r: Option<Parsed>)
        requires
            self.wf(),
            pos <= self.len(),
        ensures
            r is Some <==> gui_change_len(self.chars@, pos as int) is Some,
            r is Some ==> r->0.end == pos + gui_change_len(self.chars@, pos as int)->0,
            r is Some ==> pos < r->0.end <= self.len() && r->0.node.rule == Rule::GuiChange
                && command_shape(r->0.node),
            r is Some ==> matches_view(r->0.node, gui_change_view(self.chars@, pos as int)),
    {
        proof {
            reveal_strlit("gui");
        }
        let a = self.lit(pos, "gui")?;
        let b = self.skip_ws1(a)?;
        let c = self.name(b)?;
        let d = self.skip_ws1(c)?;
        let e = self.expr(d)?;
        let mut inner: Vec<Pair> = Vec::new();
        let element = self.leaf(Rule::GuiElement, b, c);
        inner.push(element);
        inner.push(e.node);
        let node = self.node(Rule::GuiChange, pos, e.end, inner);
        let ghost v = gui_change_view(self.chars@, pos as int);
        assert(matches_view(node.inner@[0], v.inner[0]));
        assert(matches_view(node.inner@[1], v.inner[1]));
        Some(Parsed { node, end: e.end })
    }

    /// `character` name verb, then an optional `[emotion]`.
    fn character_change(&self, pos: usize) -> (r: Option<Parsed>)
        requires
            self.wf(),
            pos <= self.len(),
        ensures
            r is Some <==> character_change_len(self.chars@, pos as int) is Some,
            r is Some ==> r->0.end == pos + character_change_len(self.chars@, pos as int)->0,
            r is Some ==> pos < r->0.end <= self.len() && r->0.node.rule == Rule::CharacterChange
                && command_shape(r->0.node),
            r is Some ==> matches_view(r->0.node, character_change_view(self.chars@, pos as int)),
    {
        proof {
            reveal_strlit("character");
        }
        let a = self.lit(pos, "character")?;
        let b = self.skip_ws1(a)?;
        let c = self.name(b)?;
        let d = self.skip_ws1(c)?;
        let e = match self.lit(d, "fade in") {
            Some(e) => e,
            None => match self.lit(d, "fade out") {
                Some(e) => e,
                None => self.name(d)?,
            },
        };
        if e <= d {
            return None;
        }
        let ghost sv = self.chars@;
        assert(e == d + action_len(sv, d as int));
        let mut inner: Vec<Pair> = Vec::new();
        inner.push(self.leaf(Rule::CharacterName, b, c));
        inner.push(self.leaf(Rule::CharacterAction, d, e));
        let mut end = e;
        let f = self.skip_ws(e);
        if self.at(f, '[') {
            let g = self.skip_ws(f + 1);
            if let Some(h) = self.name(g) {
                let i = self.skip_ws(h);
                if self.at(i, ']') {
                    inner.push(self.leaf(Rule::EmotionName, g, h));
                    end = i + 1;
                }
            }
        }
        let node = self.node(Rule::CharacterChange, pos, end, inner);
        let ghost v = character_change_view(sv, pos as int);
        assert(end == emotion_end(sv, e as int));
        assert(v.inner.len() == node.inner@.len());
        assert(matches_view(node.inner@[0], v.inner[0]));
        assert(matches_view(node.inner@[1], v.inner[1]));
        if node.inner.len() > 2 {
            assert(matches_view(node.inner@[2], v.inner[2]));
        }
        Some(Parsed { node, end })
    }

    /// A stage command: a background, GUI, scene, act or character change.
    fn stage_command(&self, pos: usize) -> (r: Option<Parsed>)
        requires
            self.wf(),
            pos <= self.len(),
        ensures
            r is Some <==> stage_len(self.chars@, pos as int) is Some,
            r is Some ==> r->0.end == pos + stage_len(self.chars@, pos as int)->0,
            r is Some ==> pos < r->0.end <= self.len() && stage_shape(r->0.node),
            r is Some ==> matches_view(r->0.node, stage_view(self.chars@, pos as int)),
    {
        let found = match self.expr_command(pos, "background", Rule::BackgroundChange) {
            Some(f) => f,
            None => match self.gui_change(pos) {
                Some(f) => f,
                None => match self.expr_command(pos, "scene", Rule::SceneChange) {
                    Some(f) => f,
                    None => match self.expr_command(pos, "act", Rule::ActChange) {
                        Some(f) => f,
                        None => self.character_change(pos)?,
                    },
                },
            },
        };
        let mut inner: Vec<Pair> = Vec::new();
        inner.push(found.node);
        let node = self.node(Rule::StageCommand, pos, found.end, inner);
        assert(matches_view(node.inner@[0], stage_view(self.chars@, pos as int).inner[0]));
        Some(Parsed { node, end: found.end })
    }

    /// `log(` one or more expressions separated by commas `)`.
    fn code(&self, pos: usize) -> (r: Option<Parsed>)
        requires
            self.wf(),
            pos <= self.len(),
        ensures
            r is Some <==> code_len(self.chars@, pos as int) is Some,
            r is Some ==> r->0.end == pos + code_len(self.chars@, pos as int)->0,
            r is Some ==> pos < r->0.end <= self.len() && code_shape(r->0.node),
            r is Some ==> matches_view(r->0.node, code_view(self.chars@, pos as int)),
    {
        proof {
            reveal_strlit("log");
        }
        let a = self.lit(pos, "log")?;
        let b = self.skip_ws(a);
        if !self.at(b, '(') {
            return None;
        }
        let c = self.skip_ws(b + 1);
        let first = self.expr(c)?;
        let ghost s = self.chars@;
        let ghost e0 = first.end as int;
        let ghost target = seq![expr_view(s, c as int)] + args_tail_views(s, e0);
        let ghost mut built: Seq<PairView> = seq![expr_view(s, c as int)];
        let mut exprs: Vec<Pair> = Vec::new();
        exprs.push(first.node);
        let mut end = first.end;
        loop
            invariant
                self.wf(),
                s == self.chars@,
                e0 <= self.len(),
                e0 + args_tail_len(s, e0) == end + args_tail_len(s, end as int),
                built.len() == exprs@.len(),
                forall|i: int| 0 <= i < exprs@.len() ==> matches_view(#[trigger] exprs@[i], built[i]),
                target == built + args_tail_views(s, end as int),
                pos < end <= self.len(),
                exprs@.len() >= 1,
                forall|i: int| 0 <= i < exprs@.len() ==> expr_shape(#[trigger] exprs@[i]),
            ensures
                args_tail_len(s, end as int) == 0,
                args_tail_views(s, end as int) == Seq::<PairView>::empty(),
            decreases self.len() - end,
        {
            let d = self.skip_ws(end);
            if !self.at(d, ',') {
                break;
            }
            let e = self.skip_ws(d + 1);
            match self.expr(e) {
                Some(next) => {
                    let ghost one = seq![expr_view(s, e as int)];
                    assert(args_tail_views(s, end as int) == one + args_tail_views(s, next.end as int));
                    exprs.push(next.node);
                    proof {
                        assert(target =~= (built + one) + args_tail_views(s, next.end as int));
                        built = built + one;
                    }
                    end = next.end;
                },
                None => break,
            }
        }
        assert(built =~= target);
        let f = self.skip_ws(end);
        if !self.at(f, ')') {
            return None;
        }
        let log = self.node(Rule::Log, pos, f + 1, exprs);
        let ghost v = code_view(s, pos as int);
        assert(matches_view(log, v.inner[0]));
        let mut inner: Vec<Pair> = Vec::new();
        inner.push(log);
        let node = self.node(Rule::Code, pos, f + 1, inner);
        assert(matches_view(node.inner@[0], v.inner[0]));
        Some(Parsed { node, end: f + 1 })
    }

    /// A part of a dialogue body: an expression, or a stage command in braces.
    fn dialogue_part(&self, pos: usize) -> (r: Option<Parsed>)
        requires
            self.wf(),
            pos <= self.len(),
        ensures
            r is Some <==> dialogue_part_len(self.chars@, pos as int) is Some,
            r is Some ==> r->0.end == pos + dialogue_part_len(self.chars@, pos as int)->0,
            r is Some ==> pos < r->0.end <= self.len() && dialogue_part_shape(r->0.node),
            r is Some ==> matches_view(r->0.node, dialogue_part_view(self.chars@, pos as int)),
    {
        if let Some(e) = self.expr(pos) {
            return Some(e);
        }
        if !self.at(pos, '{') {
            return None;
        }
        let a = self.skip_ws(pos + 1);
        let cmd = self.stage_command(a)?;
        let b = self.skip_ws(cmd.end);
        if !self.at(b, '}') {
            return None;
        }
        Some(Parsed { node: cmd.node, end: b + 1 })
    }

    /// name `[emotion]`? `:` body, where the body starts with an expression.
    #[verifier::rlimit(80)]
    fn dialogue(&self, pos: usize) -> (r: Option<Parsed>)
        requires
            self.wf(),
            pos <= self.len(),
        ensures
            r is Some <==> dialogue_len(self.chars@, pos as int) is Some,
            r is Some ==> r->0.end == pos + dialogue_len(self.chars@, pos as int)->0,
            r is Some ==> pos < r->0.end <= self.len() && dialogue_shape(r->0.node),
            r is Some ==> matches_view(r->0.node, dialogue_view(self.chars@, pos as int)),
    {
        let ghost s = self.chars@;
        let ghost v = dialogue_view(s, pos as int);
        let a = self.name(pos)?;
        let mut inner: Vec<Pair> = Vec::new();
        inner.push(self.leaf(Rule::CharacterName, pos, a));
        let mut b = self.skip_ws(a);
        if self.at(b, '[') {
            let c = self.skip_ws(b + 1);
            let d = self.name(c)?;
            let e = self.skip_ws(d);
            if !self.at(e, ']') {
                return None;
            }
            let mut emotion: Vec<Pair> = Vec::new();
            emotion.push(self.leaf(Rule::EmotionName, c, d));
            inner.push(self.node(Rule::DialogueEmotionChange, b, e + 1, emotion));
            b = self.skip_ws(e + 1);
        }
        if !self.at(b, ':') {
            return None;
        }
        let c = self.skip_ws(b + 1);
        let first = self.expr(c)?;
        let ghost start = inner@.len();
        let ghost e0 = first.end as int;
        inner.push(first.node);
        let ghost mut built: Seq<PairView> = v.inner.take((start + 1) as int);
        proof {
            assert forall|i: int| 0 <= i < inner@.len() implies matches_view(
                #[trigger] inner@[i],
                built[i],
            ) by {
                if i == 1 && start == 2 {
                    assert(matches_view(inner@[1].inner@[0], v.inner[1].inner[0]));
                }
            }
            assert(v.inner =~= built + dialogue_tail_views(s, e0));
        }
        let ghost target = v.inner;
        let mut end = first.end;
        loop
            invariant
                self.wf(),
                s == self.chars@,
                built.len() == inner@.len(),
                forall|i: int| 0 <= i < inner@.len() ==> matches_view(#[trigger] inner@[i], built[i]),
                target == built + dialogue_tail_views(s, end as int),
                e0 <= self.len(),
                e0 + dialogue_tail_len(s, e0) == end + dialogue_tail_len(s, end as int),
                pos < end <= self.len(),
                start == 1 || start == 2,
                inner@.len() > start,
                inner@[0].rule == Rule::CharacterName,
                start == 2 <==> (inner@.len() > 1 && inner@[1].rule == Rule::DialogueEmotionChange),
                start == 2 ==> inner@[1].inner@.len() == 1 && inner@[1].inner@[0].rule
                    == Rule::EmotionName,
                inner@[start as int].rule == Rule::Expr,
                forall|i: int| start <= i < inner@.len() ==> dialogue_part_shape(#[trigger] inner@[i]),
            ensures
                dialogue_tail_len(s, end as int) == 0,
                dialogue_tail_views(s, end as int) == Seq::<PairView>::empty(),
            decreases self.len() - end,
        {
            let d = self.skip_ws(end);
            match self.dialogue_part(d) {
                Some(part) => {
                    let ghost one = seq![dialogue_part_view(s, d as int)];
                    assert(dialogue_tail_views(s, end as int) == one + dialogue_tail_views(s, part.end as int));
                    inner.push(part.node);
                    proof {
                        assert(target =~= (built + one) + dialogue_tail_views(s, part.end as int));
                        built = built + one;
                    }
                    end = part.end;
                },
                None => break,
            }
        }
        assert(built =~= target);
        let p = self.node(Rule::Dialogue, pos, end, inner);
        assert(dialogue_start(p) == start);
        Some(Parsed { node: p, end })
    }

    /// A log statement, a stage command or a dialogue line, tried in that order.
    fn statement(&self, pos: usize) -> (r: Option<Parsed>)
        requires
            self.wf(),
            pos <= self.len(),
        ensures
            r is Some <==> statement_len(self.chars@, pos as int) is Some,
            r is Some ==> r->0.end == pos + statement_len(self.chars@, pos as int)->0,
            r is Some ==> pos < r->0.end <= self.len() && statement_shape(r->0.node),
            r is Some ==> matches_view(r->0.node, statement_view(self.chars@, pos as int)),
    {
        proof {
            reveal(statement_view);
        }
        if let Some(found) = self.code(pos) {
            return Some(found);
        }
        if let Some(found) = self.stage_command(pos) {
            return Some(found);
        }
        self.dialogue(pos)
    }

    /// `SCENE "id" {` statements `}`.
    #[verifier::rlimit(40)]
    fn scene(&self, pos: usize) -> (r: Result<Parsed, SyntaxError>)
        requires
            self.wf(),
            pos <= self.len(),
        ensures
            r is Ok <==> scene_result(self.chars@, pos as int) is Ok,
            r is Ok ==> r->Ok_0.end == pos + scene_result(self.chars@, pos as int)->Ok_0,
            r is Err ==> r->Err_0.position == scene_result(self.chars@, pos as int)->Err_0,
            r is Ok ==> pos < r->Ok_0.end <= self.len() && scene_shape(r->Ok_0.node),
            r is Ok ==> matches_view(r->Ok_0.node, scene_view(self.chars@, pos as int)),
            r is Err ==> r->Err_0.position <= self.len(),
    {
        proof {
            reveal_strlit("SCENE");
            reveal(scene_view);
        }
        let a = match self.lit(pos, "SCENE") {
            Some(a) => a,
            None => return Err(SyntaxError { position: pos }),
        };
        let b = self.skip_ws(a);
        if !self.at(b, '"') {
            return Err(SyntaxError { position: b });
        }
        let mut c = b + 1;
        while c < self.chars.len() && self.chars[c] != '"'
            invariant
                self.wf(),
                b < c <= self.chars@.len(),
                b + 1 + quoted_len(self.chars@, b + 1) == c + quoted_len(self.chars@, c as int),
            decreases self.chars@.len() - c,
        {
            c = c + 1;
        }
        if c >= self.chars.len() {
            return Err(SyntaxError { position: b });
        }
        let mut inner: Vec<Pair> = Vec::new();
        inner.push(self.leaf(Rule::SceneId, b + 1, c));
        let d = self.skip_ws(c + 1);
        if !self.at(d, '{') {
            return Err(SyntaxError { position: d });
        }
        let mut end = d + 1;
        let ghost s = self.chars@;
        let ghost e0 = (d + 1) as int;
        let ghost target = seq![leaf_view(s, Rule::SceneId, b + 1, c as int)] + body_views(s, e0);
        let ghost mut built: Seq<PairView> = seq![leaf_view(s, Rule::SceneId, b + 1, c as int)];
        loop
            invariant
                self.wf(),
                s == self.chars@,
                built.len() == inner@.len(),
                forall|i: int| 0 <= i < inner@.len() ==> matches_view(#[trigger] inner@[i], built[i]),
                target == built + body_views(s, end as int),
                e0 <= self.len(),
                e0 + body_len(s, e0) == end + body_len(s, end as int),
                pos < end <= self.len(),
                inner@.len() >= 1,
                inner@[0].rule == Rule::SceneId,
                forall|i: int| 1 <= i < inner@.len() ==> statement_shape(#[trigger] inner@[i]),
            ensures
                body_len(s, end as int) == 0,
                body_views(s, end as int) == Seq::<PairView>::empty(),
            decreases self.len() - end,
        {
            let e = self.skip_ws(end);
            match self.statement(e) {
                Some(st) => {
                    let ghost one = seq![statement_view(s, e as int)];
                    assert(body_views(s, end as int) == one + body_views(s, st.end as int));
                    inner.push(st.node);
                    proof {
                        assert(target =~= (built + one) + body_views(s, st.end as int));
                        built = built + one;
                    }
                    end = st.end;
                },
                None => break,
            }
        }
        let f = self.skip_ws(end);
        if !self.at(f, '}') {
            return Err(SyntaxError { position: f });
        }
        assert(built =~= target);
        let node = self.node(Rule::Scene, pos, f + 1, inner);
        assert(node.inner@ == inner@);
        Ok(Parsed { node, end: f + 1 })
    }

    /// Scenes up to the end of the text.
    #[verifier::rlimit(100)]
    fn act(&self) -> (r: Result<Pair, SyntaxError>)
        requires
            self.wf(),
        ensures
            r is Ok <==> script_result(self.chars@) is Ok,
            r is Err ==> script_result(self.chars@) == Err::<(), int>(r->Err_0.position as int),
            r is Ok ==> act_shape(r->Ok_0),
            r is Ok ==> matches_view(r->Ok_0, tree_of(self.chars@)),
            r is Err ==> r->Err_0.position <= self.len(),
    {
        let n = self.chars.len();
        let mut inner: Vec<Pair> = Vec::new();
        let mut pos = self.skip_ws(0);
        let ghost s = self.chars@;
        let ghost target = scenes_views(s, pos as int);
        let ghost mut built: Seq<PairView> = Seq::empty();
        while pos < n
            invariant
                self.wf(),
                s == self.chars@,
                built.len() == inner@.len(),
                forall|i: int| 0 <= i < inner@.len() ==> matches_view(#[trigger] inner@[i], built[i]),
                target == built + scenes_views(s, pos as int),
                n == self.len(),
                pos <= n,
                script_result(s) == scenes_result(s, pos as int),
                forall|i: int| 0 <= i < inner@.len() ==> scene_shape(#[trigger] inner@[i]),
            decreases n - pos,
        {
            match self.scene(pos) {
                Ok(found) => {
                    let next = self.skip_ws(found.end);
                    let ghost one = seq![scene_view(s, pos as int)];
                    assert(scenes_views(s, pos as int) == one + scenes_views(s, next as int));
                    inner.push(found.node);
                    proof {
                        assert(target =~= (built + one) + scenes_views(s, next as int));
                        built = built + one;
                    }
                    pos = next;
                },
                Err(e) => return Err(e),
            }
        }
        assert(scenes_views(s, pos as int) == Seq::<PairView>::empty());
        let eoi = self.leaf(Rule::Eoi, n, n);
        let ghost whole = built + seq![leaf_view(s, Rule::Eoi, n as int, n as int)];
        inner.push(eoi);
        let node = self.node(Rule::Act, 0, n, inner);
        proof {
            assert(tree_of(s).inner =~= whole);
            assert forall|i: int| 0 <= i < node.inner@.len() implies matches_view(
                #[trigger] node.inner@[i],
                tree_of(s).inner[i],
            ) by {
                assert(whole[i] == tree_of(s).inner[i]);
            }
        }
        Ok(node)
    }
}

/// The parser of script files.
pub struct SabiParser;

impl SabiParser {
    /// Parses the text of a script file into an act node whose children are its scenes
    /// and the end of input, or reports where the text stops following the grammar.
    pub fn parse(text: &str) -> (r: Result<Pair, SyntaxError>)
        ensures
            text@.len() < usize::MAX ==> (r is Ok <==> script_result(text@) is Ok),
            text@.len() < usize::MAX && r is Err ==> script_result(text@) == Err::<(), int>(
                r->Err_0.position as int,
            ),
            r is Ok ==> act_shape(r->Ok_0),
            r is Ok ==> parses_to(text@, r->Ok_0),
            r is Err ==> r->Err_0.position <= text@.len(),
    {
        let chars = chars_of(text);
        if chars.len() == usize::MAX {
            return Err(SyntaxError { position: chars.len() });
        }
        let cursor = Cursor { text, chars };
        cursor.act()
    }
}

} // verus!
