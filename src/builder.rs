//! Turns parse trees into expressions, statements, scenes and acts.
use vstd::prelude::*;

use crate::ast::{
    find_entry, has_key, keys_unique, Act, CharacterOperation, CodeStatement, Dialogue,
    GuiChangeTarget, Scene, StageCommand, Statement,
};
use crate::expr::{fits_i64, Expr};
use crate::tree::{same_view, Pair, Rule};

verus! {

/// Why a parse tree could not be built into a program.
#[derive(Debug, Clone, PartialEq, Eq)]
pub enum BuildError {
    /// A node matched another rule than the one expected.
    UnexpectedRule { expected: Rule, found: Rule },
    /// A node lacks a child that its rule requires.
    MissingPair { within: Rule },
    /// A child matched a rule that its parent does not allow there.
    UnexpectedPair { within: Rule, found: Rule },
    /// A numeric literal that is not a decimal integer that fits 64 bits.
    InvalidNumber { text: String },
    /// A GUI target other than `textbox` and `namebox`.
    UnknownGuiElement { name: String },
    /// A character verb other than `appears`, `fade in`, `disappears` and `fade out`.
    UnknownCharacterAction { action: String },
    /// Two scenes of one act share an id.
    DuplicateScene { scene_id: String },
    /// An act without any scene.
    NoScenes,
}

/// Whether a character is an ASCII decimal digit.
pub open spec fn is_digit(c: char) -> bool {
    '0' <= c <= '9'
}

/// The value of a string of decimal digits.
pub open spec fn digits_value(s: Seq<char>) -> int
    decreases s.len(),
{
    if s.len() == 0 {
        0
    } else {
        10 * digits_value(s.drop_last()) + (s.last() as int - '0' as int)
    }
}

/// Whether a text is a nonempty run of decimal digits.
pub open spec fn all_digits(s: Seq<char>) -> bool {
    s.len() > 0 && forall|i: int| 0 <= i < s.len() ==> #[trigger] is_digit(s[i])
}

/// A numeric literal: a decimal integer that fits 64 bits.
pub open spec fn number_spec(text: String) -> Result<Expr, BuildError> {
    if all_digits(text@) && fits_i64(digits_value(text@)) {
        Ok(Expr::Number(digits_value(text@) as i64))
    } else {
        Err(BuildError::InvalidNumber { text })
    }
}

/// An operand of an expression: a number, a string, or a parenthesised expression.
pub open spec fn primary_spec(p: Pair) -> Result<Expr, BuildError>
    decreases p, 3nat,
{
    match p.rule {
        Rule::Number => number_spec(p.text),
        Rule::Str => {
            if p.inner@.len() == 0 {
                Err(BuildError::MissingPair { within: Rule::Str })
            } else {
                Ok(Expr::String(p.inner@[0].text))
            }
        },
        Rule::Expr => expression_spec(p),
        other => Err(BuildError::UnexpectedPair { within: Rule::Expr, found: other }),
    }
}

/// The left-associated sum of the first `m` operands of an expression node, whose
/// children alternate operands and `+` operators.
pub open spec fn chain_spec(p: Pair, m: nat) -> Result<Expr, BuildError>
    decreases p, 1nat, m,
{
    if m <= 1 || 2 * m - 2 >= p.inner@.len() {
        if p.inner@.len() == 0 {
            Err(BuildError::MissingPair { within: Rule::Expr })
        } else {
            primary_spec(p.inner@[0])
        }
    } else {
        match chain_spec(p, (m - 1) as nat) {
            Err(e) => Err(e),
            Ok(lhs) => {
                if p.inner@[2 * m - 3].rule != Rule::Add {
                    Err(
                        BuildError::UnexpectedPair { within: Rule::Expr, found: p.inner@[2 * m - 3].rule },
                    )
                } else {
                    match primary_spec(p.inner@[2 * m - 2]) {
                        Err(e) => Err(e),
                        Ok(rhs) => Ok(Expr::Add { lhs: Box::new(lhs), rhs: Box::new(rhs) }),
                    }
                }
            },
        }
    }
}

/// An expression node: its operands summed from the left.
pub open spec fn expression_spec(p: Pair) -> Result<Expr, BuildError>
    decreases p, 2nat,
{
    if p.inner@.len() == 0 {
        Err(BuildError::MissingPair { within: Rule::Expr })
    } else if p.inner@.len() % 2 == 0 {
        Err(BuildError::MissingPair { within: Rule::Add })
    } else {
        chain_spec(p, ((p.inner@.len() + 1) / 2) as nat)
    }
}

proof fn lemma_digits_value_grows(s: Seq<char>, k: int)
    requires
        0 <= k <= s.len(),
        forall|i: int| 0 <= i < s.len() ==> #[trigger] is_digit(s[i]),
    ensures
        0 <= digits_value(s.take(k)) <= digits_value(s),
    decreases s.len() - k,
{
    if k < s.len() {
        lemma_digits_value_grows(s, k + 1);
        assert(s.take(k + 1).drop_last() =~= s.take(k));
        assert(is_digit(s[k]));
    } else {
        assert(s.take(k) =~= s);
    }
    lemma_digits_nonneg(s);
}

proof fn lemma_digits_nonneg(s: Seq<char>)
    requires
        forall|i: int| 0 <= i < s.len() ==> #[trigger] is_digit(s[i]),
    ensures
        0 <= digits_value(s),
    decreases s.len(),
{
    if s.len() > 0 {
        assert(is_digit(s[s.len() - 1]));
        lemma_digits_nonneg(s.drop_last());
    }
}

fn build_number(text: &String) -> (r: Result<Expr, BuildError>)
    ensures
        r == number_spec(*text),
{
    let s = text.as_str();
    let n = s.unicode_len();
    if n == 0 {
        return Err(BuildError::InvalidNumber { text: text.clone() });
    }
    let mut value: i64 = 0;
    let mut i: usize = 0;
    while i < n
        invariant
            n == s@.len(),
            s@ == text@,
            i <= n,
            forall|j: int| 0 <= j < i ==> #[trigger] is_digit(s@[j]),
            value as int == digits_value(s@.take(i as int)),
        decreases n - i,
    {
        let c = s.get_char(i);
        if !('0' <= c && c <= '9') {
            assert(!is_digit(s@[i as int]));
            return Err(BuildError::InvalidNumber { text: text.clone() });
        }
        let d: i64 = (c as u32 - '0' as u32) as i64;
        assert(s@.take(i + 1).drop_last() =~= s@.take(i as int));
        let next = match value.checked_mul(10) {
            Some(v) => v.checked_add(d),
            None => None,
        };
        match next {
            Some(v) => {
                value = v;
            },
            None => {
                proof {
                    lemma_digits_value_grows(s@.take(i + 1), i + 1);
                    assert forall|j: int| 0 <= j < s@.len() && j <= i implies #[trigger] is_digit(
                        s@[j],
                    ) by {}
                    if all_digits(s@) {
                        lemma_digits_value_grows(s@, i + 1);
                    }
                }
                return Err(BuildError::InvalidNumber { text: text.clone() });
            },
        }
        i = i + 1;
    }
    assert(s@.take(n as int) =~= s@);
    Ok(Expr::Number(value))
}

proof fn lemma_chain_error(p: Pair, j: nat, k: nat)
    requires
        1 <= j <= k,
        2 * k - 2 < p.inner@.len(),
        chain_spec(p, j) is Err,
    ensures
        chain_spec(p, k) == chain_spec(p, j),
    decreases k - j,
{
    if j < k {
        lemma_chain_error(p, j, (k - 1) as nat);
    }
}

fn build_primary(p: &Pair) -> (r: Result<Expr, BuildError>)
    ensures
        r == primary_spec(*p),
    decreases *p, 3nat,
{
    match p.rule {
        Rule::Number => build_number(&p.text),
        Rule::Str => {
            if p.inner.len() == 0 {
                Err(BuildError::MissingPair { within: Rule::Str })
            } else {
                Ok(Expr::String(p.inner[0].text.clone()))
            }
        },
        Rule::Expr => build_expression(p),
        other => Err(BuildError::UnexpectedPair { within: Rule::Expr, found: other }),
    }
}

/// Builds an expression node: its operands, separated by `+`, are summed from the left.
pub fn build_expression(pair: &Pair) -> (r: Result<Expr, BuildError>)
    ensures
        r == expression_spec(*pair),
    decreases *pair, 2nat,
{
    let n = pair.inner.len();
    if n == 0 {
        return Err(BuildError::MissingPair { within: Rule::Expr });
    }
    if n % 2 == 0 {
        return Err(BuildError::MissingPair { within: Rule::Add });
    }
    let total = n / 2 + 1;
    let first = build_primary(&pair.inner[0]);
    let mut acc = match first {
        Ok(e) => e,
        Err(e) => {
            proof {
                lemma_chain_error(*pair, 1, total as nat);
            }
            return Err(e);
        },
    };
    let mut m: usize = 1;
    while m < total
        invariant
            n == pair.inner@.len(),
            n % 2 == 1,
            total == n / 2 + 1,
            1 <= m <= total,
            chain_spec(*pair, m as nat) == Ok::<Expr, BuildError>(acc),
        decreases total - m,
    {
        let op = pair.inner[2 * m - 1].rule;
        if op != Rule::Add {
            proof {
                lemma_chain_error(*pair, (m + 1) as nat, total as nat);
            }
            return Err(BuildError::UnexpectedPair { within: Rule::Expr, found: op });
        }
        let rhs = match build_primary(&pair.inner[2 * m]) {
            Ok(e) => e,
            Err(e) => {
                proof {
                    lemma_chain_error(*pair, (m + 1) as nat, total as nat);
                }
                return Err(e);
            },
        };
        acc = Expr::Add { lhs: Box::new(acc), rhs: Box::new(rhs) };
        m = m + 1;
    }
    Ok(acc)
}

/// The GUI target that a name designates.
pub open spec fn gui_target_spec(name: String) -> Result<GuiChangeTarget, BuildError> {
    if name@ == "textbox"@ {
        Ok(GuiChangeTarget::TextBoxBackground)
    } else if name@ == "namebox"@ {
        Ok(GuiChangeTarget::NameBoxBackground)
    } else {
        Err(BuildError::UnknownGuiElement { name })
    }
}

/// A stage command whose only child is an expression.
pub open spec fn expr_command_spec(c: Pair) -> Result<Box<Expr>, BuildError> {
    if c.inner@.len() == 0 {
        Err(BuildError::MissingPair { within: c.rule })
    } else {
        match expression_spec(c.inner@[0]) {
            Ok(e) => Ok(Box::new(e)),
            Err(e) => Err(e),
        }
    }
}

/// A character change node: the character, its verb, and an optional emotion.
pub open spec fn character_change_spec(c: Pair) -> Result<StageCommand, BuildError> {
    if c.inner@.len() < 2 {
        Err(BuildError::MissingPair { within: Rule::CharacterChange })
    } else {
        let character = c.inner@[0].text;
        let action = c.inner@[1].text;
        if action@ == "appears"@ || action@ == "fade in"@ {
            let emotion = if c.inner@.len() > 2 && c.inner@[2].rule == Rule::EmotionName {
                Some(c.inner@[2].text)
            } else {
                None
            };
            Ok(
                StageCommand::CharacterChange {
                    character,
                    operation: CharacterOperation::Spawn(emotion, action@ == "fade in"@),
                },
            )
        } else if action@ == "disappears"@ || action@ == "fade out"@ {
            Ok(
                StageCommand::CharacterChange {
                    character,
                    operation: CharacterOperation::Despawn(action@ == "fade out"@),
                },
            )
        } else {
            Err(BuildError::UnknownCharacterAction { action })
        }
    }
}

/// A stage command node.
pub open spec fn stage_spec(p: Pair) -> Result<Statement, BuildError> {
    if p.rule != Rule::StageCommand {
        Err(BuildError::UnexpectedRule { expected: Rule::StageCommand, found: p.rule })
    } else if p.inner@.len() == 0 {
        Err(BuildError::MissingPair { within: Rule::StageCommand })
    } else {
        let c = p.inner@[0];
        let command = match c.rule {
            Rule::BackgroundChange => match expr_command_spec(c) {
                Ok(e) => Ok(StageCommand::BackgroundChange { background_expr: e }),
                Err(e) => Err(e),
            },
            Rule::GuiChange => {
                if c.inner@.len() < 2 {
                    Err(BuildError::MissingPair { within: Rule::GuiChange })
                } else {
                    match gui_target_spec(c.inner@[0].text) {
                        Err(e) => Err(e),
                        Ok(gui_target) => match expression_spec(c.inner@[1]) {
                            Ok(e) => Ok(StageCommand::GUIChange { gui_target, sprite_expr: Box::new(e) }),
                            Err(e) => Err(e),
                        },
                    }
                }
            },
            Rule::SceneChange => match expr_command_spec(c) {
                Ok(e) => Ok(StageCommand::SceneChange { scene_expr: e }),
                Err(e) => Err(e),
            },
            Rule::ActChange => match expr_command_spec(c) {
                Ok(e) => Ok(StageCommand::ActChange { act_expr: e }),
                Err(e) => Err(e),
            },
            Rule::CharacterChange => character_change_spec(c),
            other => Err(BuildError::UnexpectedPair { within: Rule::StageCommand, found: other }),
        };
        match command {
            Ok(cmd) => Ok(Statement::Stage(cmd)),
            Err(e) => Err(e),
        }
    }
}

/// Whether a string holds exactly the characters of a literal.
fn text_is(s: &String, lit: &str) -> (r: bool)
    ensures
        r == (s@ == lit@),
{
    let a = s.as_str();
    let n = a.unicode_len();
    if n != lit.unicode_len() {
        return false;
    }
    let mut i: usize = 0;
    while i < n
        invariant
            n == a@.len(),
            n == lit@.len(),
            a@ == s@,
            i <= n,
            forall|j: int| 0 <= j < i ==> a@[j] == lit@[j],
        decreases n - i,
    {
        if a.get_char(i) != lit.get_char(i) {
            return false;
        }
        i = i + 1;
    }
    assert(a@ =~= lit@);
    true
}

fn build_gui_target(name: &String) -> (r: Result<GuiChangeTarget, BuildError>)
    ensures
        r == gui_target_spec(*name),
{
    if text_is(name, "textbox") {
        Ok(GuiChangeTarget::TextBoxBackground)
    } else if text_is(name, "namebox") {
        Ok(GuiChangeTarget::NameBoxBackground)
    } else {
        Err(BuildError::UnknownGuiElement { name: name.clone() })
    }
}

fn build_expr_command(c: &Pair) -> (r: Result<Box<Expr>, BuildError>)
    ensures
        r == expr_command_spec(*c),
{
    if c.inner.len() == 0 {
        return Err(BuildError::MissingPair { within: c.rule });
    }
    match build_expression(&c.inner[0]) {
        Ok(e) => Ok(Box::new(e)),
        Err(e) => Err(e),
    }
}

fn build_character_change(c: &Pair) -> (r: Result<StageCommand, BuildError>)
    ensures
        r == character_change_spec(*c),
{
    if c.inner.len() < 2 {
        return Err(BuildError::MissingPair { within: Rule::CharacterChange });
    }
    let character = c.inner[0].text.clone();
    let action = &c.inner[1].text;
    let fade_in = text_is(action, "fade in");
    let fade_out = text_is(action, "fade out");
    if fade_in || text_is(action, "appears") {
        let emotion = if c.inner.len() > 2 && c.inner[2].rule == Rule::EmotionName {
            Some(c.inner[2].text.clone())
        } else {
            None
        };
        Ok(
            StageCommand::CharacterChange {
                character,
                operation: CharacterOperation::Spawn(emotion, fade_in),
            },
        )
    } else if fade_out || text_is(action, "disappears") {
        Ok(StageCommand::CharacterChange { character, operation: CharacterOperation::Despawn(fade_out) })
    } else {
        Err(BuildError::UnknownCharacterAction { action: action.clone() })
    }
}

/// Builds a stage command node: a background, GUI, scene or act change, or a character
/// change whose verb is `appears`, `fade in`, `disappears` or `fade out`.
pub fn build_stage_command(pair: &Pair) -> (r: Result<Statement, BuildError>)
    ensures
        r == stage_spec(*pair),
{
    if pair.rule != Rule::StageCommand {
        return Err(BuildError::UnexpectedRule { expected: Rule::StageCommand, found: pair.rule });
    }
    if pair.inner.len() == 0 {
        return Err(BuildError::MissingPair { within: Rule::StageCommand });
    }
    let c = &pair.inner[0];
    let command = match c.rule {
        Rule::BackgroundChange => match build_expr_command(c) {
            Ok(e) => StageCommand::BackgroundChange { background_expr: e },
            Err(e) => return Err(e),
        },
        Rule::GuiChange => {
            if c.inner.len() < 2 {
                return Err(BuildError::MissingPair { within: Rule::GuiChange });
            }
            let gui_target = match build_gui_target(&c.inner[0].text) {
                Ok(t) => t,
                Err(e) => return Err(e),
            };
            match build_expression(&c.inner[1]) {
                Ok(e) => StageCommand::GUIChange { gui_target, sprite_expr: Box::new(e) },
                Err(e) => return Err(e),
            }
        },
        Rule::SceneChange => match build_expr_command(c) {
            Ok(e) => StageCommand::SceneChange { scene_expr: e },
            Err(e) => return Err(e),
        },
        Rule::ActChange => match build_expr_command(c) {
            Ok(e) => StageCommand::ActChange { act_expr: e },
            Err(e) => return Err(e),
        },
        Rule::CharacterChange => match build_character_change(c) {
            Ok(cmd) => cmd,
            Err(e) => return Err(e),
        },
        other => {
            return Err(BuildError::UnexpectedPair { within: Rule::StageCommand, found: other });
        },
    };
    Ok(Statement::Stage(command))
}

/// One part of a dialogue body: a run of text said by the character, or an embedded
/// stage command.
pub open spec fn dialogue_part_spec(q: Pair, character: String) -> Result<Statement, BuildError> {
    match q.rule {
        Rule::Expr => match expression_spec(q) {
            Ok(e) => Ok(Statement::Dialogue(Dialogue { character, dialogue: e })),
            Err(e) => Err(e),
        },
        Rule::StageCommand => stage_spec(q),
        other => Err(BuildError::UnexpectedPair { within: Rule::Dialogue, found: other }),
    }
}

/// The statements of the dialogue parts `from .. k`, appended to `acc` in source order.
pub open spec fn dialogue_rest_spec(
    p: Pair,
    character: String,
    acc: Seq<Statement>,
    from: nat,
    k: nat,
) -> Result<Seq<Statement>, BuildError>
    decreases k,
{
    if k <= from || k > p.inner@.len() {
        Ok(acc)
    } else {
        match dialogue_rest_spec(p, character, acc, from, (k - 1) as nat) {
            Err(e) => Err(e),
            Ok(s) => match dialogue_part_spec(p.inner@[k - 1], character) {
                Err(e) => Err(e),
                Ok(st) => Ok(s.push(st)),
            },
        }
    }
}

/// The leading emotion change of a dialogue, if its second child announces one.
pub open spec fn dialogue_emotion_spec(p: Pair, character: String) -> Result<Seq<Statement>, BuildError> {
    if p.inner@.len() > 1 && p.inner@[1].rule == Rule::DialogueEmotionChange {
        let em = p.inner@[1];
        if em.inner@.len() == 0 {
            Err(BuildError::MissingPair { within: Rule::DialogueEmotionChange })
        } else if em.inner@[0].rule != Rule::EmotionName {
            Err(BuildError::UnexpectedRule { expected: Rule::EmotionName, found: em.inner@[0].rule })
        } else {
            Ok(
                seq![
                    Statement::Stage(
                        StageCommand::CharacterChange {
                            character,
                            operation: CharacterOperation::EmotionChange(em.inner@[0].text),
                        },
                    ),
                ],
            )
        }
    } else {
        Ok(Seq::empty())
    }
}

/// A dialogue node: an optional emotion change, then one statement per part of its body.
pub open spec fn dialogue_spec(p: Pair) -> Result<Seq<Statement>, BuildError> {
    if p.rule != Rule::Dialogue {
        Err(BuildError::UnexpectedRule { expected: Rule::Dialogue, found: p.rule })
    } else if p.inner@.len() == 0 {
        Err(BuildError::MissingPair { within: Rule::Dialogue })
    } else {
        let character = p.inner@[0].text;
        match dialogue_emotion_spec(p, character) {
            Err(e) => Err(e),
            Ok(lead) => {
                let start: nat = if lead.len() > 0 { 2 } else { 1 };
                if p.inner@.len() <= start {
                    Err(BuildError::MissingPair { within: Rule::Dialogue })
                } else if p.inner@[start as int].rule != Rule::Expr {
                    Err(BuildError::UnexpectedRule { expected: Rule::Expr, found: p.inner@[start as int].rule })
                } else {
                    match expression_spec(p.inner@[start as int]) {
                        Err(e) => Err(e),
                        Ok(e) => dialogue_rest_spec(
                            p,
                            character,
                            lead.push(Statement::Dialogue(Dialogue { character, dialogue: e })),
                            start + 1,
                            p.inner@.len(),
                        ),
                    }
                }
            },
        }
    }
}

proof fn lemma_dialogue_rest_error(
    p: Pair,
    character: String,
    acc: Seq<Statement>,
    from: nat,
    j: nat,
    k: nat,
)
    requires
        from <= j <= k <= p.inner@.len(),
        dialogue_rest_spec(p, character, acc, from, j) is Err,
    ensures
        dialogue_rest_spec(p, character, acc, from, k) == dialogue_rest_spec(p, character, acc, from, j),
    decreases k - j,
{
    if j < k {
        lemma_dialogue_rest_error(p, character, acc, from, j, (k - 1) as nat);
    }
}

fn build_dialogue_part(q: &Pair, character: &String) -> (r: Result<Statement, BuildError>)
    ensures
        r == dialogue_part_spec(*q, *character),
{
    match q.rule {
        Rule::Expr => match build_expression(q) {
            Ok(e) => Ok(Statement::Dialogue(Dialogue { character: character.clone(), dialogue: e })),
            Err(e) => Err(e),
        },
        Rule::StageCommand => build_stage_command(q),
        other => Err(BuildError::UnexpectedPair { within: Rule::Dialogue, found: other }),
    }
}

/// Builds a dialogue node into its statements: an emotion change when the line carries
/// one, then a dialogue statement for each run of text and each embedded stage command,
/// in source order.
pub fn build_dialogue(pair: &Pair) -> (r: Result<Vec<Statement>, BuildError>)
    ensures
        r is Ok <==> dialogue_spec(*pair) is Ok,
        r is Ok ==> r->Ok_0@ == dialogue_spec(*pair)->Ok_0,
        r is Err ==> r->Err_0 == dialogue_spec(*pair)->Err_0,
{
    if pair.rule != Rule::Dialogue {
        return Err(BuildError::UnexpectedRule { expected: Rule::Dialogue, found: pair.rule });
    }
    if pair.inner.len() == 0 {
        return Err(BuildError::MissingPair { within: Rule::Dialogue });
    }
    let character = pair.inner[0].text.clone();
    let mut statements: Vec<Statement> = Vec::new();
    if pair.inner.len() > 1 && pair.inner[1].rule == Rule::DialogueEmotionChange {
        let em = &pair.inner[1];
        if em.inner.len() == 0 {
            return Err(BuildError::MissingPair { within: Rule::DialogueEmotionChange });
        }
        if em.inner[0].rule != Rule::EmotionName {
            return Err(BuildError::UnexpectedRule { expected: Rule::EmotionName, found: em.inner[0].rule });
        }
        statements.push(
            Statement::Stage(
                StageCommand::CharacterChange {
                    character: character.clone(),
                    operation: CharacterOperation::EmotionChange(em.inner[0].text.clone()),
                },
            ),
        );
    }
    assert(statements@ == dialogue_emotion_spec(*pair, character)->Ok_0);
    let start: usize = if statements.len() > 0 { 2 } else { 1 };
    if pair.inner.len() <= start {
        return Err(BuildError::MissingPair { within: Rule::Dialogue });
    }
    if pair.inner[start].rule != Rule::Expr {
        return Err(BuildError::UnexpectedRule { expected: Rule::Expr, found: pair.inner[start].rule });
    }
    let first = match build_expression(&pair.inner[start]) {
        Ok(e) => e,
        Err(e) => return Err(e),
    };
    statements.push(Statement::Dialogue(Dialogue { character: character.clone(), dialogue: first }));
    let ghost lead = statements@;
    let n = pair.inner.len();
    assert(dialogue_spec(*pair) == dialogue_rest_spec(*pair, character, lead, (start + 1) as nat, n as nat));
    let mut k: usize = start + 1;
    while k < n
        invariant
            n == pair.inner@.len(),
            dialogue_spec(*pair) == dialogue_rest_spec(*pair, character, lead, (start + 1) as nat, n as nat),
            start + 1 <= k <= n,
            dialogue_rest_spec(*pair, character, lead, (start + 1) as nat, k as nat)
                == Ok::<Seq<Statement>, BuildError>(statements@),
        decreases n - k,
    {
        match build_dialogue_part(&pair.inner[k], &character) {
            Ok(st) => {
                statements.push(st);
            },
            Err(e) => {
                proof {
                    lemma_dialogue_rest_error(
                        *pair,
                        character,
                        lead,
                        (start + 1) as nat,
                        (k + 1) as nat,
                        n as nat,
                    );
                }
                return Err(e);
            },
        }
        k = k + 1;
    }
    Ok(statements)
}

/// The expressions that the first `k` of the given nodes build into, or the first error.
pub open spec fn exprs_spec(items: Seq<Pair>, k: nat) -> Result<Seq<Expr>, BuildError>
    decreases k,
{
    if k == 0 || k > items.len() {
        Ok(Seq::empty())
    } else {
        match exprs_spec(items, (k - 1) as nat) {
            Err(e) => Err(e),
            Ok(s) => match expression_spec(items[k - 1]) {
                Err(e) => Err(e),
                Ok(x) => Ok(s.push(x)),
            },
        }
    }
}

/// A code node: the expressions of its log statement.
pub open spec fn code_spec(p: Pair) -> Result<Seq<Expr>, BuildError> {
    if p.rule != Rule::Code {
        Err(BuildError::UnexpectedRule { expected: Rule::Code, found: p.rule })
    } else if p.inner@.len() == 0 {
        Err(BuildError::MissingPair { within: Rule::Code })
    } else if p.inner@[0].rule != Rule::Log {
        Err(BuildError::UnexpectedPair { within: Rule::Code, found: p.inner@[0].rule })
    } else {
        exprs_spec(p.inner@[0].inner@, p.inner@[0].inner@.len())
    }
}

/// Whether a statement is the log statement of the given expressions.
pub open spec fn is_log_of(s: Statement, exprs: Seq<Expr>) -> bool {
    s matches Statement::Code(CodeStatement::Log { exprs: v }) && v@ == exprs
}

proof fn lemma_exprs_error(items: Seq<Pair>, j: nat, k: nat)
    requires
        j <= k <= items.len(),
        exprs_spec(items, j) is Err,
    ensures
        exprs_spec(items, k) == exprs_spec(items, j),
    decreases k - j,
{
    if j < k {
        lemma_exprs_error(items, j, (k - 1) as nat);
    }
}

/// Builds a code node: a log statement of one or more expressions.
pub fn build_code_statement(code_pair: &Pair) -> (r: Result<Statement, BuildError>)
    ensures
        r is Ok <==> code_spec(*code_pair) is Ok,
        r is Ok ==> is_log_of(r->Ok_0, code_spec(*code_pair)->Ok_0),
        r is Err ==> r->Err_0 == code_spec(*code_pair)->Err_0,
{
    if code_pair.rule != Rule::Code {
        return Err(BuildError::UnexpectedRule { expected: Rule::Code, found: code_pair.rule });
    }
    if code_pair.inner.len() == 0 {
        return Err(BuildError::MissingPair { within: Rule::Code });
    }
    let log = &code_pair.inner[0];
    if log.rule != Rule::Log {
        return Err(BuildError::UnexpectedPair { within: Rule::Code, found: log.rule });
    }
    let n = log.inner.len();
    let mut exprs: Vec<Expr> = Vec::new();
    let mut k: usize = 0;
    while k < n
        invariant
            n == log.inner@.len(),
            code_spec(*code_pair) == exprs_spec(log.inner@, n as nat),
            k <= n,
            exprs_spec(log.inner@, k as nat) == Ok::<Seq<Expr>, BuildError>(exprs@),
        decreases n - k,
    {
        match build_expression(&log.inner[k]) {
            Ok(e) => exprs.push(e),
            Err(e) => {
                proof {
                    lemma_exprs_error(log.inner@, (k + 1) as nat, n as nat);
                }
                return Err(e);
            },
        }
        k = k + 1;
    }
    Ok(Statement::Code(CodeStatement::Log { exprs }))
}

/// The error of a statement node of a scene, if it has one.
pub open spec fn statement_error(q: Pair) -> Option<BuildError> {
    match q.rule {
        Rule::Code => match code_spec(q) {
            Err(e) => Some(e),
            Ok(_) => None,
        },
        Rule::StageCommand => match stage_spec(q) {
            Err(e) => Some(e),
            Ok(_) => None,
        },
        Rule::Dialogue => match dialogue_spec(q) {
            Err(e) => Some(e),
            Ok(_) => None,
        },
        other => Some(BuildError::UnexpectedPair { within: Rule::Scene, found: other }),
    }
}

/// The first error among the statement nodes `1 .. k` of a scene (child 0 is its id).
pub open spec fn scene_body_error(items: Seq<Pair>, k: nat) -> Option<BuildError>
    decreases k,
{
    if k <= 1 || k > items.len() {
        None
    } else {
        match scene_body_error(items, (k - 1) as nat) {
            Some(e) => Some(e),
            None => statement_error(items[k - 1]),
        }
    }
}

/// Whether `stmts` is what the statement nodes `1 .. k` of a scene build into, in order.
pub open spec fn scene_body_match(items: Seq<Pair>, k: nat, stmts: Seq<Statement>) -> bool
    decreases k,
{
    if k <= 1 || k > items.len() {
        stmts.len() == 0
    } else {
        let q = items[k - 1];
        match q.rule {
            Rule::Code => stmts.len() >= 1 && is_log_of(stmts.last(), code_spec(q)->Ok_0)
                && scene_body_match(items, (k - 1) as nat, stmts.drop_last()),
            Rule::StageCommand => stmts.len() >= 1 && stmts.last() == stage_spec(q)->Ok_0
                && scene_body_match(items, (k - 1) as nat, stmts.drop_last()),
            Rule::Dialogue => {
                let d = dialogue_spec(q)->Ok_0;
                stmts.len() >= d.len() && stmts.subrange(stmts.len() - d.len(), stmts.len() as int) == d
                    && scene_body_match(
                    items,
                    (k - 1) as nat,
                    stmts.subrange(0, stmts.len() - d.len()),
                )
            },
            _ => false,
        }
    }
}

proof fn lemma_scene_body_error(items: Seq<Pair>, j: nat, k: nat)
    requires
        1 <= j <= k <= items.len(),
        scene_body_error(items, j) is Some,
    ensures
        scene_body_error(items, k) == scene_body_error(items, j),
    decreases k - j,
{
    if j < k {
        lemma_scene_body_error(items, j, (k - 1) as nat);
    }
}

/// Builds the statements of a scene node, in source order.
fn build_scene_statements(scene: &Pair) -> (r: Result<Vec<Statement>, BuildError>)
    requires
        scene.inner@.len() >= 1,
    ensures
        r is Ok <==> scene_body_error(scene.inner@, scene.inner@.len()) is None,
        r is Ok ==> scene_body_match(scene.inner@, scene.inner@.len(), r->Ok_0@),
        r is Err ==> Some(r->Err_0) == scene_body_error(scene.inner@, scene.inner@.len()),
{
    let n = scene.inner.len();
    let mut statements: Vec<Statement> = Vec::new();
    let mut k: usize = 1;
    while k < n
        invariant
            n == scene.inner@.len(),
            1 <= k <= n,
            scene_body_error(scene.inner@, k as nat) is None,
            scene_body_match(scene.inner@, k as nat, statements@),
        decreases n - k,
    {
        let q = &scene.inner[k];
        let ghost before = statements@;
        match q.rule {
            Rule::Code => match build_code_statement(q) {
                Ok(st) => {
                    statements.push(st);
                    assert(statements@.drop_last() =~= before);
                },
                Err(e) => {
                    proof {
                        lemma_scene_body_error(scene.inner@, (k + 1) as nat, n as nat);
                    }
                    return Err(e);
                },
            },
            Rule::StageCommand => match build_stage_command(q) {
                Ok(st) => {
                    statements.push(st);
                    assert(statements@.drop_last() =~= before);
                },
                Err(e) => {
                    proof {
                        lemma_scene_body_error(scene.inner@, (k + 1) as nat, n as nat);
                    }
                    return Err(e);
                },
            },
            Rule::Dialogue => match build_dialogue(q) {
                Ok(mut v) => {
                    let ghost d = v@;
                    statements.append(&mut v);
                    assert(statements@.subrange(0, statements@.len() - d.len()) =~= before);
                    assert(statements@.subrange(statements@.len() - d.len(), statements@.len() as int)
                        =~= d);
                },
                Err(e) => {
                    proof {
                        lemma_scene_body_error(scene.inner@, (k + 1) as nat, n as nat);
                    }
                    return Err(e);
                },
            },
            other => {
                proof {
                    lemma_scene_body_error(scene.inner@, (k + 1) as nat, n as nat);
                }
                return Err(BuildError::UnexpectedPair { within: Rule::Scene, found: other });
            },
        }
        k = k + 1;
    }
    Ok(statements)
}

/// The scene nodes among the first `k` children of an act node, in order.
pub open spec fn scene_nodes(items: Seq<Pair>, k: nat) -> Seq<Pair>
    decreases k,
{
    if k == 0 || k > items.len() {
        Seq::empty()
    } else {
        let s = scene_nodes(items, (k - 1) as nat);
        if items[k - 1].rule == Rule::Scene {
            s.push(items[k - 1])
        } else {
            s
        }
    }
}

/// The error of a scene node: a missing id, or the first error among its statements.
pub open spec fn scene_error(q: Pair) -> Option<BuildError> {
    if q.inner@.len() == 0 {
        Some(BuildError::MissingPair { within: Rule::Scene })
    } else {
        scene_body_error(q.inner@, q.inner@.len())
    }
}

/// Whether one of the scene nodes has the id.
pub open spec fn id_taken(nodes: Seq<Pair>, id: Seq<char>) -> bool {
    exists|j: int|
        0 <= j < nodes.len() && nodes[j].inner@.len() > 0 && #[trigger] nodes[j].inner@[0].text@ == id
}

/// The first error among the first `k` children of an act node: a child that is no
/// scene, a scene that fails to build, or a scene whose id an earlier scene has.
pub open spec fn act_error(items: Seq<Pair>, k: nat) -> Option<BuildError>
    decreases k,
{
    if k == 0 || k > items.len() {
        None
    } else {
        match act_error(items, (k - 1) as nat) {
            Some(e) => Some(e),
            None => {
                let q = items[k - 1];
                if q.rule == Rule::Eoi {
                    None
                } else if q.rule != Rule::Scene {
                    Some(BuildError::UnexpectedPair { within: Rule::Act, found: q.rule })
                } else {
                    match scene_error(q) {
                        Some(e) => Some(e),
                        None => {
                            if id_taken(scene_nodes(items, (k - 1) as nat), q.inner@[0].text@) {
                                Some(BuildError::DuplicateScene { scene_id: q.inner@[0].text })
                            } else {
                                None
                            }
                        },
                    }
                }
            },
        }
    }
}

/// Why an act node does not build, if it does not.
pub open spec fn act_spec_error(p: Pair) -> Option<BuildError> {
    match act_error(p.inner@, p.inner@.len()) {
        Some(e) => Some(e),
        None => {
            if scene_nodes(p.inner@, p.inner@.len()).len() == 0 {
                Some(BuildError::NoScenes)
            } else {
                None
            }
        },
    }
}

/// Whether an act is what an act node builds into: one scene per scene node, in source
/// order, under the node's id, and the first scene as entrypoint.
pub open spec fn act_matches(p: Pair, act: Act) -> bool {
    let nodes = scene_nodes(p.inner@, p.inner@.len());
    &&& act.scenes@.len() == nodes.len()
    &&& nodes.len() > 0
    &&& act.entrypoint == nodes[0].inner@[0].text
    &&& forall|j: int|
        0 <= j < nodes.len() ==> {
            &&& nodes[j].inner@.len() > 0
            &&& #[trigger] act.scenes@[j].0 == nodes[j].inner@[0].text
            &&& scene_body_match(nodes[j].inner@, nodes[j].inner@.len(), act.scenes@[j].1.statements@)
        }
}

proof fn lemma_act_error(items: Seq<Pair>, j: nat, k: nat)
    requires
        j <= k <= items.len(),
        act_error(items, j) is Some,
    ensures
        act_error(items, k) == act_error(items, j),
    decreases k - j,
{
    if j < k {
        lemma_act_error(items, j, (k - 1) as nat);
    }
}

proof fn lemma_scene_node_kept(items: Seq<Pair>, a: int, k: nat)
    requires
        0 <= a < k <= items.len(),
        items[a].rule == Rule::Scene,
    ensures
        exists|j: int|
            0 <= j < scene_nodes(items, k).len() && #[trigger] scene_nodes(items, k)[j] == items[a],
    decreases k,
{
    if a < k - 1 {
        lemma_scene_node_kept(items, a, (k - 1) as nat);
        let j = choose|j: int|
            0 <= j < scene_nodes(items, (k - 1) as nat).len() && #[trigger] scene_nodes(
                items,
                (k - 1) as nat,
            )[j] == items[a];
        assert(scene_nodes(items, k)[j] == items[a]);
    } else {
        let j = scene_nodes(items, k).len() - 1;
        assert(scene_nodes(items, k)[j] == items[a]);
    }
}

proof fn lemma_only_duplicates(items: Seq<Pair>, k: nat)
    requires
        k <= items.len(),
        forall|i: int|
            0 <= i < items.len() ==> (#[trigger] items[i]).rule == Rule::Scene || items[i].rule
                == Rule::Eoi,
        forall|i: int|
            0 <= i < items.len() && (#[trigger] items[i]).rule == Rule::Scene ==> scene_error(
                items[i],
            ) is None,
    ensures
        act_error(items, k) is None || act_error(items, k)->0 is DuplicateScene,
    decreases k,
{
    if k > 0 {
        lemma_only_duplicates(items, (k - 1) as nat);
        assert(items[k - 1].rule == Rule::Scene || items[k - 1].rule == Rule::Eoi);
    }
}

/// Two scenes of one act that share an id fail the build with the duplicate-scene
/// error, when every child of the act is a scene or the end of input and every scene
/// builds on its own.
pub proof fn lemma_duplicate_scene_fails(p: Pair, a: int, b: int)
    requires
        0 <= a < b < p.inner@.len(),
        forall|i: int|
            0 <= i < p.inner@.len() ==> (#[trigger] p.inner@[i]).rule == Rule::Scene
                || p.inner@[i].rule == Rule::Eoi,
        forall|i: int|
            0 <= i < p.inner@.len() && (#[trigger] p.inner@[i]).rule == Rule::Scene ==> scene_error(
                p.inner@[i],
            ) is None,
        p.inner@[a].rule == Rule::Scene,
        p.inner@[b].rule == Rule::Scene,
        p.inner@[a].inner@[0].text@ == p.inner@[b].inner@[0].text@,
    ensures
        act_spec_error(p) matches Some(BuildError::DuplicateScene { .. }),
        two_scenes_with_id(p.inner@, p.inner@.len() as int, act_spec_error(p)->0->scene_id@),
{
    let items = p.inner@;
    let n = items.len();
    assert(scene_error(items[a]) is None);
    assert(scene_error(items[b]) is None);
    lemma_only_duplicates(items, b as nat);
    if act_error(items, b as nat) is None {
        lemma_scene_node_kept(items, a, b as nat);
        let nodes = scene_nodes(items, b as nat);
        let j = choose|j: int| 0 <= j < nodes.len() && #[trigger] nodes[j] == items[a];
        assert(nodes[j].inner@[0].text@ == items[b].inner@[0].text@);
        assert(id_taken(nodes, items[b].inner@[0].text@));
        assert(act_error(items, (b + 1) as nat) is Some);
        lemma_act_error(items, (b + 1) as nat, n as nat);
    } else {
        lemma_act_error(items, b as nat, n as nat);
    }
    lemma_duplicate_error_names_shared_id(items, n as nat);
}

proof fn lemma_scene_body_len(items: Seq<Pair>, k: nat, s1: Seq<Statement>, s2: Seq<Statement>)
    requires
        scene_body_match(items, k, s1),
        scene_body_match(items, k, s2),
    ensures
        s1.len() == s2.len(),
    decreases k,
{
    if k > 1 && k <= items.len() {
        let q = items[k - 1];
        match q.rule {
            Rule::Code | Rule::StageCommand => {
                lemma_scene_body_len(items, (k - 1) as nat, s1.drop_last(), s2.drop_last());
            },
            Rule::Dialogue => {
                let d = dialogue_spec(q)->Ok_0;
                lemma_scene_body_len(
                    items,
                    (k - 1) as nat,
                    s1.subrange(0, s1.len() - d.len()),
                    s2.subrange(0, s2.len() - d.len()),
                );
            },
            _ => {},
        }
    }
}

/// The number of statements of all the scenes of a table.
pub open spec fn total_statements(scenes: Seq<(String, Scene)>) -> int
    decreases scenes.len(),
{
    if scenes.len() == 0 {
        0
    } else {
        total_statements(scenes.drop_last()) + scenes.last().1.statements@.len()
    }
}

proof fn lemma_total_statements(s1: Seq<(String, Scene)>, s2: Seq<(String, Scene)>)
    requires
        s1.len() == s2.len(),
        forall|j: int| 0 <= j < s1.len() ==> (#[trigger] s1[j]).1.statements@.len() == s2[j].1.statements@.len(),
    ensures
        total_statements(s1) == total_statements(s2),
    decreases s1.len(),
{
    if s1.len() > 0 {
        assert forall|j: int| 0 <= j < s1.len() - 1 implies (#[trigger] s1.drop_last()[j]).1.statements@.len()
            == s2.drop_last()[j].1.statements@.len() by {
            assert(s1.drop_last()[j] == s1[j]);
            assert(s2.drop_last()[j] == s2[j]);
        }
        lemma_total_statements(s1.drop_last(), s2.drop_last());
    }
}

/// Building is stable: two acts built from one parse tree have the same scenes in the
/// same order, each with as many statements, and so the same number of statements.
pub proof fn lemma_build_stable(p: Pair, a1: Act, a2: Act)
    requires
        act_matches(p, a1),
        act_matches(p, a2),
    ensures
        a1.scenes@.len() == a2.scenes@.len(),
        a1.entrypoint == a2.entrypoint,
        forall|j: int|
            0 <= j < a1.scenes@.len() ==> (#[trigger] a1.scenes@[j]).0 == a2.scenes@[j].0
                && a1.scenes@[j].1.statements@.len() == a2.scenes@[j].1.statements@.len(),
        total_statements(a1.scenes@) == total_statements(a2.scenes@),
{
    let nodes = scene_nodes(p.inner@, p.inner@.len());
    assert forall|j: int| 0 <= j < a1.scenes@.len() implies (#[trigger] a1.scenes@[j]).0
        == a2.scenes@[j].0 && a1.scenes@[j].1.statements@.len() == a2.scenes@[j].1.statements@.len() by {
        assert(a1.scenes@[j].0 == nodes[j].inner@[0].text);
        assert(a2.scenes@[j].0 == nodes[j].inner@[0].text);
        lemma_scene_body_len(
            nodes[j].inner@,
            nodes[j].inner@.len(),
            a1.scenes@[j].1.statements@,
            a2.scenes@[j].1.statements@,
        );
    }
    lemma_total_statements(a1.scenes@, a2.scenes@);
}

/// Builds an act node into an act: its scenes under their ids, in source order, and the
/// first scene as entrypoint. Two scenes with one id fail the build.
pub fn build_scenes(pair: &Pair) -> (r: Result<Act, BuildError>)
    ensures
        r is Ok <==> act_spec_error(*pair) is None,
        r is Ok ==> act_matches(*pair, r->Ok_0) && r->Ok_0.wf(),
        r is Err ==> Some(r->Err_0) == act_spec_error(*pair),
{
    let ghost items = pair.inner@;
    let n = pair.inner.len();
    let mut scenes: Vec<(String, Scene)> = Vec::new();
    let mut k: usize = 0;
    while k < n
        invariant
            n == items.len(),
            items == pair.inner@,
            k <= n,
            act_error(items, k as nat) is None,
            scenes@.len() == scene_nodes(items, k as nat).len(),
            keys_unique(scenes@),
            forall|j: int|
                0 <= j < scenes@.len() ==> {
                    let q = #[trigger] scene_nodes(items, k as nat)[j];
                    &&& q.inner@.len() > 0
                    &&& scenes@[j].0 == q.inner@[0].text
                    &&& scene_body_match(q.inner@, q.inner@.len(), scenes@[j].1.statements@)
                },
        decreases n - k,
    {
        let q = &pair.inner[k];
        let ghost nodes = scene_nodes(items, k as nat);
        if q.rule == Rule::Scene {
            if q.inner.len() == 0 {
                proof {
                    lemma_act_error(items, (k + 1) as nat, n as nat);
                }
                return Err(BuildError::MissingPair { within: Rule::Scene });
            }
            let statements = match build_scene_statements(q) {
                Ok(v) => v,
                Err(e) => {
                    proof {
                        lemma_act_error(items, (k + 1) as nat, n as nat);
                    }
                    return Err(e);
                },
            };
            let scene_id = q.inner[0].text.clone();
            match find_entry(&scenes, &scene_id) {
                Some(i) => {
                    proof {
                        assert(nodes[i as int].inner@[0].text@ == scene_id@);
                        assert(id_taken(nodes, q.inner@[0].text@));
                        lemma_act_error(items, (k + 1) as nat, n as nat);
                    }
                    return Err(BuildError::DuplicateScene { scene_id });
                },
                None => {
                    proof {
                        assert forall|j: int|
                            0 <= j < nodes.len() && nodes[j].inner@.len() > 0 implies #[trigger] nodes[j].inner@[0].text@
                            != q.inner@[0].text@ by {
                            assert(scenes@[j].0@ != scene_id@);
                        }
                    }
                    let ghost before = scenes@;
                    scenes.push((scene_id, Scene { statements }));
                    proof {
                        assert(scene_nodes(items, (k + 1) as nat) == nodes.push(*q));
                        assert forall|a: int, b: int|
                            0 <= a < scenes@.len() && 0 <= b < scenes@.len() && a != b implies #[trigger] scenes@[a].0@
                            != #[trigger] scenes@[b].0@ by {
                            if a < before.len() && b < before.len() {
                                assert(before[a].0@ != before[b].0@);
                            }
                        }
                    }
                },
            }
        } else if q.rule != Rule::Eoi {
            proof {
                lemma_act_error(items, (k + 1) as nat, n as nat);
            }
            return Err(BuildError::UnexpectedPair { within: Rule::Act, found: q.rule });
        }
        k = k + 1;
    }
    if scenes.len() == 0 {
        return Err(BuildError::NoScenes);
    }
    let entrypoint = scenes[0].0.clone();
    let act = Act { scenes, entrypoint };
    proof {
        assert(has_key(act.scenes@, act.entrypoint@)) by {
            assert(act.scenes@[0].0@ == act.entrypoint@);
        }
    }
    Ok(act)
}

/// Two errors of one kind about the same texts and rules.
pub open spec fn same_error(a: BuildError, b: BuildError) -> bool {
    match (a, b) {
        (
            BuildError::UnexpectedRule { expected: x1, found: y1 },
            BuildError::UnexpectedRule { expected: x2, found: y2 },
        ) => x1 == x2 && y1 == y2,
        (BuildError::MissingPair { within: x1 }, BuildError::MissingPair { within: x2 }) => x1 == x2,
        (
            BuildError::UnexpectedPair { within: x1, found: y1 },
            BuildError::UnexpectedPair { within: x2, found: y2 },
        ) => x1 == x2 && y1 == y2,
        (BuildError::InvalidNumber { text: t1 }, BuildError::InvalidNumber { text: t2 }) => t1@ == t2@,
        (BuildError::UnknownGuiElement { name: t1 }, BuildError::UnknownGuiElement { name: t2 }) => t1@
            == t2@,
        (
            BuildError::UnknownCharacterAction { action: t1 },
            BuildError::UnknownCharacterAction { action: t2 },
        ) => t1@ == t2@,
        (BuildError::DuplicateScene { scene_id: t1 }, BuildError::DuplicateScene { scene_id: t2 }) => t1@
            == t2@,
        (BuildError::NoScenes, BuildError::NoScenes) => true,
        _ => false,
    }
}

/// Two results that both succeed, or fail with the same error.
pub open spec fn same_outcome<T>(a: Result<T, BuildError>, b: Result<T, BuildError>) -> bool {
    &&& a is Ok <==> b is Ok
    &&& a is Err ==> same_error(a->Err_0, b->Err_0)
}

/// Two optional errors that are both absent, or the same error.
pub open spec fn same_opt_error(a: Option<BuildError>, b: Option<BuildError>) -> bool {
    &&& a is Some <==> b is Some
    &&& a is Some ==> same_error(a->0, b->0)
}

proof fn lemma_same_primary(p: Pair, q: Pair)
    requires
        same_view(p, q),
    ensures
        same_outcome(primary_spec(p), primary_spec(q)),
    decreases p, 2nat,
{
    if p.rule == Rule::Expr {
        lemma_same_expression(p, q);
    }
}

proof fn lemma_same_chain(p: Pair, q: Pair, m: nat)
    requires
        same_view(p, q),
    ensures
        same_outcome(chain_spec(p, m), chain_spec(q, m)),
    decreases p, 0nat, m,
{
    if p.inner@.len() > 0 {
        assert(same_view(p.inner@[0], q.inner@[0]));
        lemma_same_primary(p.inner@[0], q.inner@[0]);
    }
    if m > 1 && 2 * m - 2 < p.inner@.len() {
        lemma_same_chain(p, q, (m - 1) as nat);
        assert(same_view(p.inner@[2 * m - 3], q.inner@[2 * m - 3]));
        assert(same_view(p.inner@[2 * m - 2], q.inner@[2 * m - 2]));
        lemma_same_primary(p.inner@[2 * m - 2], q.inner@[2 * m - 2]);
    }
}

proof fn lemma_same_expression(p: Pair, q: Pair)
    requires
        same_view(p, q),
    ensures
        same_outcome(expression_spec(p), expression_spec(q)),
    decreases p, 1nat,
{
    lemma_same_chain(p, q, ((p.inner@.len() + 1) / 2) as nat);
}

proof fn lemma_same_stage(p: Pair, q: Pair)
    requires
        same_view(p, q),
    ensures
        same_outcome(stage_spec(p), stage_spec(q)),
{
    if p.inner@.len() > 0 {
        let c = p.inner@[0];
        let d = q.inner@[0];
        assert(same_view(c, d));
        if c.inner@.len() > 0 {
            assert(same_view(c.inner@[0], d.inner@[0]));
            lemma_same_expression(c.inner@[0], d.inner@[0]);
        }
        if c.inner@.len() > 1 {
            assert(same_view(c.inner@[1], d.inner@[1]));
            lemma_same_expression(c.inner@[1], d.inner@[1]);
        }
        if c.inner@.len() > 2 {
            assert(same_view(c.inner@[2], d.inner@[2]));
        }
    }
}

proof fn lemma_same_exprs(a: Seq<Pair>, b: Seq<Pair>, k: nat)
    requires
        a.len() == b.len(),
        forall|i: int| 0 <= i < a.len() ==> same_view(#[trigger] a[i], b[i]),
    ensures
        same_outcome(exprs_spec(a, k), exprs_spec(b, k)),
        exprs_spec(a, k) is Ok ==> exprs_spec(a, k)->Ok_0.len() == exprs_spec(b, k)->Ok_0.len(),
    decreases k,
{
    if k > 0 && k <= a.len() {
        lemma_same_exprs(a, b, (k - 1) as nat);
        assert(same_view(a[k - 1], b[k - 1]));
        lemma_same_expression(a[k - 1], b[k - 1]);
    }
}

proof fn lemma_same_code(p: Pair, q: Pair)
    requires
        same_view(p, q),
    ensures
        same_outcome(code_spec(p), code_spec(q)),
{
    if p.inner@.len() > 0 {
        assert(same_view(p.inner@[0], q.inner@[0]));
        let l = p.inner@[0];
        let m = q.inner@[0];
        assert forall|i: int| 0 <= i < l.inner@.len() implies same_view(#[trigger] l.inner@[i], m.inner@[i]) by {}
        lemma_same_exprs(l.inner@, m.inner@, l.inner@.len());
    }
}

proof fn lemma_same_dialogue_rest(
    p: Pair,
    q: Pair,
    c1: String,
    c2: String,
    acc1: Seq<Statement>,
    acc2: Seq<Statement>,
    from: nat,
    k: nat,
)
    requires
        same_view(p, q),
        acc1.len() == acc2.len(),
    ensures
        same_outcome(dialogue_rest_spec(p, c1, acc1, from, k), dialogue_rest_spec(q, c2, acc2, from, k)),
        dialogue_rest_spec(p, c1, acc1, from, k) is Ok ==> dialogue_rest_spec(p, c1, acc1, from, k)->Ok_0.len()
            == dialogue_rest_spec(q, c2, acc2, from, k)->Ok_0.len(),
    decreases k,
{
    if k > from && k <= p.inner@.len() {
        lemma_same_dialogue_rest(p, q, c1, c2, acc1, acc2, from, (k - 1) as nat);
        let x = p.inner@[k - 1];
        let y = q.inner@[k - 1];
        assert(same_view(x, y));
        lemma_same_expression(x, y);
        lemma_same_stage(x, y);
    }
}

proof fn lemma_same_dialogue(p: Pair, q: Pair)
    requires
        same_view(p, q),
    ensures
        same_outcome(dialogue_spec(p), dialogue_spec(q)),
        dialogue_spec(p) is Ok ==> dialogue_spec(p)->Ok_0.len() == dialogue_spec(q)->Ok_0.len(),
{
    if p.rule == Rule::Dialogue && p.inner@.len() > 0 {
        let c1 = p.inner@[0].text;
        let c2 = q.inner@[0].text;
        if p.inner@.len() > 1 {
            assert(same_view(p.inner@[1], q.inner@[1]));
            if p.inner@[1].inner@.len() > 0 {
                assert(same_view(p.inner@[1].inner@[0], q.inner@[1].inner@[0]));
            }
        }
        let l1 = dialogue_emotion_spec(p, c1);
        let l2 = dialogue_emotion_spec(q, c2);
        if l1 is Ok {
            let start: int = if l1->Ok_0.len() > 0 { 2 } else { 1 };
            if p.inner@.len() > start {
                assert(same_view(p.inner@[start], q.inner@[start]));
                lemma_same_expression(p.inner@[start], q.inner@[start]);
                let e1 = expression_spec(p.inner@[start]);
                let e2 = expression_spec(q.inner@[start]);
                if e1 is Ok {
                    lemma_same_dialogue_rest(
                        p,
                        q,
                        c1,
                        c2,
                        l1->Ok_0.push(Statement::Dialogue(Dialogue { character: c1, dialogue: e1->Ok_0 })),
                        l2->Ok_0.push(Statement::Dialogue(Dialogue { character: c2, dialogue: e2->Ok_0 })),
                        (start + 1) as nat,
                        p.inner@.len(),
                    );
                }
            }
        }
    }
}

proof fn lemma_same_statement(p: Pair, q: Pair)
    requires
        same_view(p, q),
    ensures
        same_opt_error(statement_error(p), statement_error(q)),
{
    lemma_same_code(p, q);
    lemma_same_stage(p, q);
    lemma_same_dialogue(p, q);
}

proof fn lemma_same_scene_body(a: Seq<Pair>, b: Seq<Pair>, k: nat)
    requires
        a.len() == b.len(),
        forall|i: int| 0 <= i < a.len() ==> same_view(#[trigger] a[i], b[i]),
    ensures
        same_opt_error(scene_body_error(a, k), scene_body_error(b, k)),
    decreases k,
{
    if k > 1 && k <= a.len() {
        lemma_same_scene_body(a, b, (k - 1) as nat);
        assert(same_view(a[k - 1], b[k - 1]));
        lemma_same_statement(a[k - 1], b[k - 1]);
    }
}

proof fn lemma_same_scene(p: Pair, q: Pair)
    requires
        same_view(p, q),
    ensures
        same_opt_error(scene_error(p), scene_error(q)),
{
    assert forall|i: int| 0 <= i < p.inner@.len() implies same_view(#[trigger] p.inner@[i], q.inner@[i]) by {}
    lemma_same_scene_body(p.inner@, q.inner@, p.inner@.len());
}

proof fn lemma_same_scene_nodes(a: Seq<Pair>, b: Seq<Pair>, k: nat)
    requires
        a.len() == b.len(),
        forall|i: int| 0 <= i < a.len() ==> same_view(#[trigger] a[i], b[i]),
    ensures
        scene_nodes(a, k).len() == scene_nodes(b, k).len(),
        forall|j: int|
            0 <= j < scene_nodes(a, k).len() ==> same_view(#[trigger] scene_nodes(a, k)[j], scene_nodes(b, k)[j]),
    decreases k,
{
    if k > 0 && k <= a.len() {
        lemma_same_scene_nodes(a, b, (k - 1) as nat);
        assert(same_view(a[k - 1], b[k - 1]));
    }
}

proof fn lemma_same_act_error(a: Seq<Pair>, b: Seq<Pair>, k: nat)
    requires
        a.len() == b.len(),
        forall|i: int| 0 <= i < a.len() ==> same_view(#[trigger] a[i], b[i]),
    ensures
        same_opt_error(act_error(a, k), act_error(b, k)),
    decreases k,
{
    if k > 0 && k <= a.len() {
        lemma_same_act_error(a, b, (k - 1) as nat);
        let x = a[k - 1];
        let y = b[k - 1];
        assert(same_view(x, y));
        lemma_same_scene(x, y);
        if x.inner@.len() > 0 {
            assert(same_view(x.inner@[0], y.inner@[0]));
            lemma_same_scene_nodes(a, b, (k - 1) as nat);
            let n1 = scene_nodes(a, (k - 1) as nat);
            let n2 = scene_nodes(b, (k - 1) as nat);
            let id = x.inner@[0].text@;
            if id_taken(n1, id) {
                let j = choose|j: int|
                    0 <= j < n1.len() && n1[j].inner@.len() > 0 && #[trigger] n1[j].inner@[0].text@ == id;
                assert(same_view(n1[j], n2[j]));
                assert(same_view(n1[j].inner@[0], n2[j].inner@[0]));
                assert(n2[j].inner@[0].text@ == id);
            }
            if id_taken(n2, id) {
                let j = choose|j: int|
                    0 <= j < n2.len() && n2[j].inner@.len() > 0 && #[trigger] n2[j].inner@[0].text@ == id;
                assert(same_view(n1[j], n2[j]));
                assert(same_view(n1[j].inner@[0], n2[j].inner@[0]));
                assert(n1[j].inner@[0].text@ == id);
            }
        }
    }
}

/// Building depends on the parse tree's rules and texts alone: two trees that hold the
/// same view both build, or fail with the same error.
pub proof fn lemma_build_depends_on_view(p: Pair, q: Pair)
    requires
        same_view(p, q),
    ensures
        same_opt_error(act_spec_error(p), act_spec_error(q)),
{
    assert forall|i: int| 0 <= i < p.inner@.len() implies same_view(#[trigger] p.inner@[i], q.inner@[i]) by {}
    lemma_same_act_error(p.inner@, q.inner@, p.inner@.len());
    lemma_same_scene_nodes(p.inner@, q.inner@, p.inner@.len());
}

proof fn lemma_scene_nodes_build(items: Seq<Pair>, k: nat)
    requires
        k <= items.len(),
        act_error(items, k) is None,
    ensures
        forall|j: int|
            0 <= j < scene_nodes(items, k).len() ==> scene_error(#[trigger] scene_nodes(items, k)[j]) is None,
    decreases k,
{
    if k > 0 {
        lemma_scene_nodes_build(items, (k - 1) as nat);
    }
}

proof fn lemma_body_error_prefix(a: Seq<Pair>, j: nat, k: nat)
    requires
        j <= k <= a.len(),
        scene_body_error(a, k) is None,
    ensures
        scene_body_error(a, j) is None,
    decreases k - j,
{
    if j < k {
        if k > 1 && scene_body_error(a, (k - 1) as nat) is Some {
            lemma_scene_body_error(a, (k - 1) as nat, k);
        }
        lemma_body_error_prefix(a, j, (k - 1) as nat);
    }
}

proof fn lemma_same_body_len(a: Seq<Pair>, b: Seq<Pair>, k: nat, s1: Seq<Statement>, s2: Seq<Statement>)
    requires
        a.len() == b.len(),
        k <= a.len(),
        forall|i: int| 0 <= i < a.len() ==> same_view(#[trigger] a[i], b[i]),
        scene_body_error(a, k) is None,
        scene_body_match(a, k, s1),
        scene_body_match(b, k, s2),
    ensures
        s1.len() == s2.len(),
    decreases k,
{
    if k > 1 {
        let x = a[k - 1];
        let y = b[k - 1];
        assert(same_view(x, y));
        lemma_body_error_prefix(a, (k - 1) as nat, k);
        match x.rule {
            Rule::Code | Rule::StageCommand => {
                lemma_same_body_len(a, b, (k - 1) as nat, s1.drop_last(), s2.drop_last());
            },
            Rule::Dialogue => {
                lemma_same_dialogue(x, y);
                let d1 = dialogue_spec(x)->Ok_0;
                let d2 = dialogue_spec(y)->Ok_0;
                lemma_same_body_len(
                    a,
                    b,
                    (k - 1) as nat,
                    s1.subrange(0, s1.len() - d1.len()),
                    s2.subrange(0, s2.len() - d2.len()),
                );
            },
            _ => {},
        }
    }
}

/// Two parse trees that hold the same view build into acts with the same scene ids, in the
/// same order, each scene with as many statements, and so as many statements in all.
pub proof fn lemma_build_counts_depend_on_view(p: Pair, q: Pair, a1: Act, a2: Act)
    requires
        same_view(p, q),
        act_spec_error(p) is None,
        act_matches(p, a1),
        act_matches(q, a2),
    ensures
        a1.scenes@.len() == a2.scenes@.len(),
        a1.entrypoint@ == a2.entrypoint@,
        forall|j: int|
            0 <= j < a1.scenes@.len() ==> (#[trigger] a1.scenes@[j]).0@ == a2.scenes@[j].0@
                && a1.scenes@[j].1.statements@.len() == a2.scenes@[j].1.statements@.len(),
        total_statements(a1.scenes@) == total_statements(a2.scenes@),
{
    assert forall|i: int| 0 <= i < p.inner@.len() implies same_view(#[trigger] p.inner@[i], q.inner@[i]) by {}
    let n = p.inner@.len();
    lemma_same_scene_nodes(p.inner@, q.inner@, n);
    lemma_scene_nodes_build(p.inner@, n);
    let n1 = scene_nodes(p.inner@, n);
    let n2 = scene_nodes(q.inner@, n);
    assert(same_view(n1[0], n2[0]));
    assert(same_view(n1[0].inner@[0], n2[0].inner@[0]));
    assert forall|j: int| 0 <= j < a1.scenes@.len() implies (#[trigger] a1.scenes@[j]).0@ == a2.scenes@[j].0@
        && a1.scenes@[j].1.statements@.len() == a2.scenes@[j].1.statements@.len() by {
        assert(a1.scenes@[j].0 == n1[j].inner@[0].text);
        assert(a2.scenes@[j].0 == n2[j].inner@[0].text);
        assert(same_view(n1[j], n2[j]));
        assert(same_view(n1[j].inner@[0], n2[j].inner@[0]));
        assert(scene_error(n1[j]) is None);
        assert forall|i: int| 0 <= i < n1[j].inner@.len() implies same_view(
            #[trigger] n1[j].inner@[i],
            n2[j].inner@[i],
        ) by {}
        lemma_same_body_len(
            n1[j].inner@,
            n2[j].inner@,
            n1[j].inner@.len(),
            a1.scenes@[j].1.statements@,
            a2.scenes@[j].1.statements@,
        );
    }
    lemma_total_statements(a1.scenes@, a2.scenes@);
}

/// The same error, either way round.
pub proof fn lemma_same_error_symmetric(a: BuildError, b: BuildError)
    requires
        same_error(a, b),
    ensures
        same_error(b, a),
{
}

proof fn lemma_scene_node_origin(items: Seq<Pair>, k: nat, j: int)
    requires
        k <= items.len(),
        0 <= j < scene_nodes(items, k).len(),
    ensures
        exists|i: int|
            0 <= i < k && #[trigger] items[i] == scene_nodes(items, k)[j] && items[i].rule == Rule::Scene,
    decreases k,
{
    if k > 0 {
        let prev = scene_nodes(items, (k - 1) as nat);
        if j < prev.len() {
            lemma_scene_node_origin(items, (k - 1) as nat, j);
            let i = choose|i: int|
                0 <= i < k - 1 && #[trigger] items[i] == prev[j] && items[i].rule == Rule::Scene;
            assert(items[i] == scene_nodes(items, k)[j]);
        } else {
            assert(items[k - 1] == scene_nodes(items, k)[j]);
        }
    }
}

/// Whether two scene children before `k` have the id.
pub open spec fn two_scenes_with_id(items: Seq<Pair>, k: int, id: Seq<char>) -> bool {
    exists|a: int, b: int|
        0 <= a < b < k && #[trigger] items[a].rule == Rule::Scene && #[trigger] items[b].rule == Rule::Scene
            && items[a].inner@.len() > 0 && items[b].inner@.len() > 0 && items[a].inner@[0].text@ == id
            && items[b].inner@[0].text@ == id
}

/// When every scene of an act builds on its own, the duplicate-scene error names an id
/// that two scenes of the act share.
pub proof fn lemma_duplicate_error_names_shared_id(items: Seq<Pair>, k: nat)
    requires
        k <= items.len(),
        forall|i: int|
            0 <= i < items.len() && (#[trigger] items[i]).rule == Rule::Scene ==> scene_error(
                items[i],
            ) is None,
        act_error(items, k) matches Some(BuildError::DuplicateScene { .. }),
    ensures
        two_scenes_with_id(items, k as int, act_error(items, k)->0->scene_id@),
    decreases k,
{
    let id = act_error(items, k)->0->scene_id@;
    if act_error(items, (k - 1) as nat) is Some {
        assert(act_error(items, k) == act_error(items, (k - 1) as nat));
        lemma_duplicate_error_names_shared_id(items, (k - 1) as nat);
        let (a, b) = choose|a: int, b: int|
            0 <= a < b < k - 1 && #[trigger] items[a].rule == Rule::Scene && #[trigger] items[b].rule
                == Rule::Scene && items[a].inner@.len() > 0 && items[b].inner@.len() > 0
                && items[a].inner@[0].text@ == id && items[b].inner@[0].text@ == id;
        assert(0 <= a < b < k && items[a].rule == Rule::Scene && items[b].rule == Rule::Scene
            && items[a].inner@.len() > 0 && items[b].inner@.len() > 0 && items[a].inner@[0].text@ == id
            && items[b].inner@[0].text@ == id);
    } else {
        let q = items[k - 1];
        assert(q.rule == Rule::Scene);
        assert(scene_error(q) is None);
        let nodes = scene_nodes(items, (k - 1) as nat);
        assert(id_taken(nodes, q.inner@[0].text@));
        assert(id == q.inner@[0].text@);
        let j = choose|j: int|
            0 <= j < nodes.len() && nodes[j].inner@.len() > 0 && #[trigger] nodes[j].inner@[0].text@ == id;
        lemma_scene_node_origin(items, (k - 1) as nat, j);
        let a = choose|i: int| 0 <= i < k - 1 && #[trigger] items[i] == nodes[j] && items[i].rule == Rule::Scene;
        let b = k - 1;
        assert(0 <= a < b < k && items[a].rule == Rule::Scene && items[b].rule == Rule::Scene
            && items[a].inner@.len() > 0 && items[b].inner@.len() > 0 && items[a].inner@[0].text@ == id
            && items[b].inner@[0].text@ == id);
    }
}

} // verus!




