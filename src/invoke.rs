//! Invoking statements: each emits its outbound message or writes its log line.
use vstd::prelude::*;

use crate::ast::{CharacterOperation, CodeStatement, Dialogue, GuiChangeTarget, StageCommand, Statement};
use crate::expr::{text_of, EvaluationError, Expr};

verus! {

/// A line of dialogue for the dialogue box.
#[derive(Debug, PartialEq, Eq)]
pub struct CharacterSayMessage {
    pub name: String,
    pub message: String,
}

/// A new background.
#[derive(Debug, PartialEq, Eq)]
pub struct BackgroundChangeMessage {
    pub background_id: String,
}

/// A new sprite for a part of the dialogue box.
#[derive(Debug, PartialEq, Eq)]
pub struct GUIChangeMessage {
    pub gui_target: GuiChangeTarget,
    pub sprite_id: String,
}

/// A request to continue with another scene of the current act.
#[derive(Debug, PartialEq, Eq)]
pub struct SceneChangeMessage {
    pub scene_id: String,
}

/// A request to continue with another act, at its entrypoint.
#[derive(Debug, PartialEq, Eq)]
pub struct ActChangeMessage {
    pub act_id: String,
}

/// A change to a character on stage.
#[derive(Debug, PartialEq, Eq)]
pub struct CharacterChangeMessage {
    pub character: String,
    pub operation: CharacterOperation,
}

/// Whether a character operation must finish before the script goes on: a spawn or a
/// despawn that fades.
pub open spec fn operation_blocks(op: CharacterOperation) -> bool {
    op matches CharacterOperation::Spawn(_, true) || op matches CharacterOperation::Despawn(true)
}

impl CharacterChangeMessage {
    /// Whether the change is a fade, which the script waits for.
    pub fn is_blocking(&self) -> (r: bool)
        ensures
            r == operation_blocks(self.operation),
    {
        match self.operation {
            CharacterOperation::Spawn(_, true) => true,
            CharacterOperation::Despawn(true) => true,
            _ => false,
        }
    }
}

/// The outbound channels of an invocation, one per kind of message, the diagnostic
/// channel of log lines, and the blocking flag.
#[derive(Debug)]
pub struct InvokeContext {
    pub blocking: bool,
    pub character_say_message: Vec<CharacterSayMessage>,
    pub background_change_message: Vec<BackgroundChangeMessage>,
    pub gui_change_message: Vec<GUIChangeMessage>,
    pub scene_change_message: Vec<SceneChangeMessage>,
    pub act_change_message: Vec<ActChangeMessage>,
    pub character_change_message: Vec<CharacterChangeMessage>,
    pub log_message: Vec<String>,
}

/// One of the channels of an invocation context.
pub enum Channel {
    Say,
    Background,
    Gui,
    Scene,
    Act,
    Character,
    Log,
}

/// `new` is `old` with one more element at its end.
pub open spec fn pushed<T>(old: Seq<T>, new: Seq<T>) -> bool {
    new.len() == old.len() + 1 && new.drop_last() == old
}

impl InvokeContext {
    /// A context with no message and the given blocking flag.
    pub fn new(blocking: bool) -> (r: InvokeContext)
        ensures
            r.blocking == blocking,
            r.is_empty(),
    {
        InvokeContext {
            blocking,
            character_say_message: Vec::new(),
            background_change_message: Vec::new(),
            gui_change_message: Vec::new(),
            scene_change_message: Vec::new(),
            act_change_message: Vec::new(),
            character_change_message: Vec::new(),
            log_message: Vec::new(),
        }
    }

    /// No channel holds a message.
    pub open spec fn is_empty(&self) -> bool {
        &&& self.character_say_message@.len() == 0
        &&& self.background_change_message@.len() == 0
        &&& self.gui_change_message@.len() == 0
        &&& self.scene_change_message@.len() == 0
        &&& self.act_change_message@.len() == 0
        &&& self.character_change_message@.len() == 0
        &&& self.log_message@.len() == 0
    }

    /// Every channel but `ch` holds the same messages in both contexts.
    pub open spec fn same_except(&self, other: InvokeContext, ch: Channel) -> bool {
        &&& ch !is Say ==> self.character_say_message@ == other.character_say_message@
        &&& ch !is Background ==> self.background_change_message@ == other.background_change_message@
        &&& ch !is Gui ==> self.gui_change_message@ == other.gui_change_message@
        &&& ch !is Scene ==> self.scene_change_message@ == other.scene_change_message@
        &&& ch !is Act ==> self.act_change_message@ == other.act_change_message@
        &&& ch !is Character ==> self.character_change_message@ == other.character_change_message@
        &&& ch !is Log ==> self.log_message@ == other.log_message@
    }
}

/// Texts joined by single spaces.
pub open spec fn join_spaced(parts: Seq<Seq<char>>) -> Seq<char>
    decreases parts.len(),
{
    if parts.len() == 0 {
        Seq::empty()
    } else if parts.len() == 1 {
        parts[0]
    } else {
        join_spaced(parts.drop_last()) + seq![' '] + parts.last()
    }
}

/// Every expression of a log statement has a value.
pub open spec fn log_ok(exprs: Seq<Expr>) -> bool {
    forall|i: int| 0 <= i < exprs.len() ==> (#[trigger] text_of(exprs[i])) is Some
}

/// The line that a log statement writes: the texts of its expressions joined by spaces.
pub open spec fn log_line(exprs: Seq<Expr>) -> Seq<char> {
    join_spaced(Seq::new(exprs.len(), |i: int| text_of(exprs[i])->0))
}

/// The expression that a stage command evaluates, if it evaluates one.
pub open spec fn stage_expr(c: StageCommand) -> Option<Expr> {
    match c {
        StageCommand::BackgroundChange { background_expr } => Some(*background_expr),
        StageCommand::GUIChange { sprite_expr, .. } => Some(*sprite_expr),
        StageCommand::SceneChange { scene_expr } => Some(*scene_expr),
        StageCommand::ActChange { act_expr } => Some(*act_expr),
        StageCommand::CharacterChange { .. } => None,
    }
}

/// Whether invoking the statement succeeds: every expression it evaluates has a value.
pub open spec fn statement_ok(s: Statement) -> bool {
    match s {
        Statement::Code(CodeStatement::Log { exprs }) => log_ok(exprs@),
        Statement::Stage(c) => match stage_expr(c) {
            Some(e) => text_of(e) is Some,
            None => true,
        },
        Statement::Dialogue(d) => text_of(d.dialogue) is Some,
    }
}

/// What a successful invocation of a stage command does to the context.
pub open spec fn stage_invoked(old: InvokeContext, new: InvokeContext, c: StageCommand) -> bool {
    match c {
        StageCommand::BackgroundChange { background_expr } => {
            &&& new.same_except(old, Channel::Background)
            &&& new.blocking == old.blocking
            &&& pushed(old.background_change_message@, new.background_change_message@)
            &&& new.background_change_message@.last().background_id@ == text_of(*background_expr)->0
        },
        StageCommand::GUIChange { gui_target, sprite_expr } => {
            &&& new.same_except(old, Channel::Gui)
            &&& new.blocking == old.blocking
            &&& pushed(old.gui_change_message@, new.gui_change_message@)
            &&& new.gui_change_message@.last().gui_target == gui_target
            &&& new.gui_change_message@.last().sprite_id@ == text_of(*sprite_expr)->0
        },
        StageCommand::SceneChange { scene_expr } => {
            &&& new.same_except(old, Channel::Scene)
            &&& new.blocking == old.blocking
            &&& pushed(old.scene_change_message@, new.scene_change_message@)
            &&& new.scene_change_message@.last().scene_id@ == text_of(*scene_expr)->0
        },
        StageCommand::ActChange { act_expr } => {
            &&& new.same_except(old, Channel::Act)
            &&& new.blocking == old.blocking
            &&& pushed(old.act_change_message@, new.act_change_message@)
            &&& new.act_change_message@.last().act_id@ == text_of(*act_expr)->0
        },
        StageCommand::CharacterChange { character, operation } => {
            &&& new.same_except(old, Channel::Character)
            &&& new.blocking == (old.blocking || operation_blocks(operation))
            &&& new.character_change_message@ == old.character_change_message@.push(
                CharacterChangeMessage { character, operation },
            )
        },
    }
}

/// What a successful invocation of a statement does to the context.
pub open spec fn invoked(old: InvokeContext, new: InvokeContext, s: Statement) -> bool {
    match s {
        Statement::Dialogue(d) => {
            &&& new.same_except(old, Channel::Say)
            &&& new.blocking
            &&& pushed(old.character_say_message@, new.character_say_message@)
            &&& new.character_say_message@.last().name == d.character
            &&& new.character_say_message@.last().message@ == text_of(d.dialogue)->0
        },
        Statement::Code(CodeStatement::Log { exprs }) => {
            &&& new.same_except(old, Channel::Log)
            &&& new.blocking == old.blocking
            &&& pushed(old.log_message@, new.log_message@)
            &&& new.log_message@.last()@ == log_line(exprs@)
        },
        Statement::Stage(c) => stage_invoked(old, new, c),
    }
}

/// The kind of statement whose expression failed to evaluate.
#[derive(Debug, Clone, Copy, PartialEq, Eq)]
pub enum InvokeOperation {
    Dialogue,
    Log,
    BackgroundChange,
    GuiChange,
    SceneChange,
    ActChange,
}

/// An expression of a statement had no value.
#[derive(Debug, Clone, Copy, PartialEq, Eq)]
pub struct InvokeError {
    pub operation: InvokeOperation,
    pub error: EvaluationError,
}

impl Dialogue {
    /// Says the line: emits its text for the character and blocks until acknowledged.
    pub fn invoke(&self, ctx: &mut InvokeContext) -> (r: Result<(), InvokeError>)
        ensures
            r is Ok <==> statement_ok(Statement::Dialogue(*self)),
            r is Ok ==> invoked(*old(ctx), *final(ctx), Statement::Dialogue(*self)),
            r is Err ==> *final(ctx) == *old(ctx),
    {
        let message = match self.dialogue.evaluate_into_string() {
            Ok(text) => text,
            Err(error) => return Err(InvokeError { operation: InvokeOperation::Dialogue, error }),
        };
        ctx.character_say_message.push(CharacterSayMessage { name: self.character.clone(), message });
        ctx.blocking = true;
        assert(ctx.character_say_message@.drop_last() =~= old(ctx).character_say_message@);
        Ok(())
    }
}

fn evaluate_for(e: &Expr, operation: InvokeOperation) -> (r: Result<String, InvokeError>)
    ensures
        r is Ok <==> text_of(*e) is Some,
        r is Ok ==> r->Ok_0@ == text_of(*e)->0,
        r is Err ==> r->Err_0.operation == operation,
{
    match e.evaluate_into_string() {
        Ok(text) => Ok(text),
        Err(error) => Err(InvokeError { operation, error }),
    }
}

impl StageCommand {
    /// Emits the message of the command; a character change that fades also blocks.
    pub fn invoke(&self, ctx: &mut InvokeContext) -> (r: Result<(), InvokeError>)
        ensures
            r is Ok <==> statement_ok(Statement::Stage(*self)),
            r is Ok ==> stage_invoked(*old(ctx), *final(ctx), *self),
            r is Err ==> *final(ctx) == *old(ctx),
    {
        match self {
            StageCommand::BackgroundChange { background_expr } => {
                let background_id = evaluate_for(background_expr, InvokeOperation::BackgroundChange)?;
                ctx.background_change_message.push(BackgroundChangeMessage { background_id });
                assert(ctx.background_change_message@.drop_last() =~= old(ctx).background_change_message@);
            },
            StageCommand::GUIChange { gui_target, sprite_expr } => {
                let sprite_id = evaluate_for(sprite_expr, InvokeOperation::GuiChange)?;
                ctx.gui_change_message.push(GUIChangeMessage { gui_target: *gui_target, sprite_id });
                assert(ctx.gui_change_message@.drop_last() =~= old(ctx).gui_change_message@);
            },
            StageCommand::SceneChange { scene_expr } => {
                let scene_id = evaluate_for(scene_expr, InvokeOperation::SceneChange)?;
                ctx.scene_change_message.push(SceneChangeMessage { scene_id });
                assert(ctx.scene_change_message@.drop_last() =~= old(ctx).scene_change_message@);
            },
            StageCommand::ActChange { act_expr } => {
                let act_id = evaluate_for(act_expr, InvokeOperation::ActChange)?;
                ctx.act_change_message.push(ActChangeMessage { act_id });
                assert(ctx.act_change_message@.drop_last() =~= old(ctx).act_change_message@);
            },
            StageCommand::CharacterChange { character, operation } => {
                let message = CharacterChangeMessage {
                    character: character.clone(),
                    operation: operation.clone(),
                };
                if message.is_blocking() {
                    ctx.blocking = true;
                }
                ctx.character_change_message.push(message);
            },
        }
        Ok(())
    }
}

impl CodeStatement {
    /// Writes the texts of the expressions, joined by single spaces, as one log line.
    #[verifier::loop_isolation(false)]
    pub fn invoke(&self, ctx: &mut InvokeContext) -> (r: Result<(), InvokeError>)
        ensures
            r is Ok <==> statement_ok(Statement::Code(*self)),
            r is Ok ==> invoked(*old(ctx), *final(ctx), Statement::Code(*self)),
            r is Err ==> *final(ctx) == *old(ctx),
    {
        match self {
            CodeStatement::Log { exprs } => {
                let ghost texts = Seq::new(exprs@.len(), |i: int| text_of(exprs@[i])->0);
                let mut line = String::new();
                let mut k: usize = 0;
                while k < exprs.len()
                    invariant
                        k <= exprs@.len(),
                        texts == Seq::new(exprs@.len(), |i: int| text_of(exprs@[i])->0),
                        forall|i: int| 0 <= i < k ==> (#[trigger] text_of(exprs@[i])) is Some,
                        line@ == join_spaced(texts.take(k as int)),
                    decreases exprs@.len() - k,
                {
                    let part = match evaluate_for(&exprs[k], InvokeOperation::Log) {
                        Ok(text) => text,
                        Err(e) => {
                            assert(text_of(exprs@[k as int]) is None);
                            return Err(e);
                        },
                    };
                    proof {
                        assert(texts.take(k + 1).drop_last() =~= texts.take(k as int));
                        reveal_strlit(" ");
                    }
                    if k > 0 {
                        line.append(" ");
                    }
                    line.append(part.as_str());
                    proof {
                        if k == 0 {
                            assert(line@ =~= join_spaced(texts.take(1)));
                        } else {
                            assert(line@ =~= join_spaced(texts.take(k + 1)));
                        }
                    }
                    k = k + 1;
                }
                assert(texts.take(exprs@.len() as int) =~= texts);
                ctx.log_message.push(line);
                assert(ctx.log_message@.drop_last() =~= old(ctx).log_message@);
                Ok(())
            },
        }
    }
}

impl Statement {
    /// Invokes the statement on the context. On failure the context is left as it was.
    pub fn invoke(&self, ctx: &mut InvokeContext) -> (r: Result<(), InvokeError>)
        ensures
            r is Ok <==> statement_ok(*self),
            r is Ok ==> invoked(*old(ctx), *final(ctx), *self),
            r is Err ==> *final(ctx) == *old(ctx),
    {
        match self {
            Statement::Dialogue(dialogue) => dialogue.invoke(ctx),
            Statement::Stage(stage) => stage.invoke(ctx),
            Statement::Code(code) => code.invoke(ctx),
        }
    }
}

} // verus!
