//! The compiled program: acts made of scenes made of statements.
use vstd::prelude::*;

use crate::expr::Expr;

verus! {

/// The part of the dialogue box whose sprite a GUI change replaces.
#[derive(Debug, Clone, Copy, PartialEq, Eq)]
pub enum GuiChangeTarget {
    TextBoxBackground,
    NameBoxBackground,
}

/// What a character change does to a character on stage.
#[derive(Debug, PartialEq, Eq)]
pub enum CharacterOperation {
    /// Bring the character on stage, with an optional emotion, fading in or not.
    Spawn(Option<String>, bool),
    /// Show another emotion of the character.
    EmotionChange(String),
    /// Take the character off stage, fading out or not.
    Despawn(bool),
}

impl Clone for CharacterOperation {
    fn clone(&self) -> (r: Self)
        ensures
            r == *self,
    {
        match self {
            CharacterOperation::Spawn(emotion, fading) => {
                let e = match emotion {
                    Some(s) => Some(s.clone()),
                    None => None,
                };
                CharacterOperation::Spawn(e, *fading)
            },
            CharacterOperation::EmotionChange(s) => CharacterOperation::EmotionChange(s.clone()),
            CharacterOperation::Despawn(fading) => CharacterOperation::Despawn(*fading),
        }
    }
}

/// A statement that the player does not see.
#[derive(Debug, PartialEq)]
pub enum CodeStatement {
    /// Write the texts of the expressions, joined by single spaces, to the diagnostic channel.
    Log { exprs: Vec<Expr> },
}

/// A direction to the stage.
#[derive(Debug, PartialEq)]
pub enum StageCommand {
    BackgroundChange { background_expr: Box<Expr> },
    GUIChange { gui_target: GuiChangeTarget, sprite_expr: Box<Expr> },
    SceneChange { scene_expr: Box<Expr> },
    ActChange { act_expr: Box<Expr> },
    CharacterChange { character: String, operation: CharacterOperation },
}

/// A line that a character says.
#[derive(Debug, PartialEq)]
pub struct Dialogue {
    pub character: String,
    pub dialogue: Expr,
}

/// One compiled instruction.
#[derive(Debug, PartialEq)]
pub enum Statement {
    Code(CodeStatement),
    Stage(StageCommand),
    Dialogue(Dialogue),
}

/// The statements of a scene, in execution order.
#[derive(Debug, PartialEq)]
pub struct Scene {
    pub statements: Vec<Statement>,
}

/// A compiled script file: its scenes under their ids, and the scene it starts with.
#[derive(Debug, PartialEq)]
pub struct Act {
    pub scenes: Vec<(String, Scene)>,
    pub entrypoint: String,
}

/// No two entries of a table share a key.
pub open spec fn keys_unique<T>(entries: Seq<(String, T)>) -> bool {
    forall|i: int, j: int|
        0 <= i < entries.len() && 0 <= j < entries.len() && i != j
            ==> #[trigger] entries[i].0@ != #[trigger] entries[j].0@
}

/// Some entry of a table has the key.
pub open spec fn has_key<T>(entries: Seq<(String, T)>, key: Seq<char>) -> bool {
    exists|i: int| 0 <= i < entries.len() && #[trigger] entries[i].0@ == key
}

/// The value under a key of a table whose keys are unique.
pub open spec fn value_at_key<T>(entries: Seq<(String, T)>, key: Seq<char>) -> T {
    entries[choose|i: int| 0 <= i < entries.len() && #[trigger] entries[i].0@ == key].1
}

/// With unique keys, the entry found under a key holds the value at that key.
pub proof fn lemma_value_at_key<T>(entries: Seq<(String, T)>, i: int)
    requires
        keys_unique(entries),
        0 <= i < entries.len(),
    ensures
        value_at_key(entries, entries[i].0@) == entries[i].1,
{
    let key = entries[i].0@;
    let j = choose|j: int| 0 <= j < entries.len() && #[trigger] entries[j].0@ == key;
    assert(0 <= j < entries.len() && entries[j].0@ == key);
}

/// The index of the entry with the key.
pub fn find_entry<T>(entries: &Vec<(String, T)>, key: &String) -> (r: Option<usize>)
    ensures
        r is Some <==> has_key(entries@, key@),
        r is Some ==> r->0 < entries@.len() && entries@[r->0 as int].0@ == key@,
        r is Some ==> forall|j: int| 0 <= j < r->0 ==> #[trigger] entries@[j].0@ != key@,
{
    let mut i: usize = 0;
    while i < entries.len()
        invariant
            i <= entries@.len(),
            forall|j: int| 0 <= j < i ==> #[trigger] entries@[j].0@ != key@,
        decreases entries@.len() - i,
    {
        if entries[i].0 == *key {
            return Some(i);
        }
        i = i + 1;
    }
    None
}

/// Whether no two entries of a table share a key.
pub fn keys_are_unique<T>(entries: &Vec<(String, T)>) -> (r: bool)
    ensures
        r == keys_unique(entries@),
{
    let n = entries.len();
    let mut i: usize = 0;
    while i < n
        invariant
            n == entries@.len(),
            i <= n,
            forall|a: int, b: int|
                0 <= a < i && 0 <= b < n && a != b ==> #[trigger] entries@[a].0@
                    != #[trigger] entries@[b].0@,
        decreases n - i,
    {
        let mut j: usize = 0;
        while j < n
            invariant
                n == entries@.len(),
                i < n,
                j <= n,
                forall|a: int, b: int|
                    0 <= a < i && 0 <= b < n && a != b ==> #[trigger] entries@[a].0@
                        != #[trigger] entries@[b].0@,
                forall|b: int| 0 <= b < j && b != i ==> entries@[i as int].0@ != #[trigger] entries@[b].0@,
            decreases n - j,
        {
            if j != i && entries[i].0 == entries[j].0 {
                return false;
            }
            j = j + 1;
        }
        i = i + 1;
    }
    true
}

impl Act {
    /// The act's scenes have distinct ids and its entrypoint is one of them.
    pub open spec fn wf(&self) -> bool {
        keys_unique(self.scenes@) && has_key(self.scenes@, self.entrypoint@)
    }

    /// The scene with the given id.
    pub fn get_scene(&self, scene_id: &String) -> (r: Option<&Scene>)
        ensures
            r is Some <==> has_key(self.scenes@, scene_id@),
            r is Some ==> exists|i: int|
                0 <= i < self.scenes@.len() && self.scenes@[i].0@ == scene_id@
                    && #[trigger] self.scenes@[i].1 == *r->0,
    {
        match find_entry(&self.scenes, scene_id) {
            Some(i) => Some(&self.scenes[i].1),
            None => None,
        }
    }
}

} // verus!
