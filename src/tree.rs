//! The parse tree that the grammar produces and the builder consumes.
use vstd::prelude::*;

verus! {

/// The grammar rule that a node of the parse tree matched.
#[derive(Debug, Clone, Copy, PartialEq, Eq, Structural)]
pub enum Rule {
    Act,
    Scene,
    SceneId,
    Code,
    Log,
    StageCommand,
    BackgroundChange,
    GuiChange,
    GuiElement,
    SceneChange,
    ActChange,
    CharacterChange,
    CharacterName,
    CharacterAction,
    EmotionName,
    Dialogue,
    DialogueEmotionChange,
    Expr,
    Add,
    Number,
    Str,
    StrContent,
    Eoi,
}

/// A node of the parse tree: the rule it matched, the text it matched, and its children
/// in source order.
#[derive(Debug)]
pub struct Pair {
    pub rule: Rule,
    pub text: String,
    pub inner: Vec<Pair>,
}

/// What a node of the parse tree holds, with its text as a sequence of characters.
pub struct PairView {
    pub rule: Rule,
    pub text: Seq<char>,
    pub inner: Seq<PairView>,
}

/// Whether a node holds what the view says: the same rule, the same text, and children
/// that hold what the view's children say.
pub open spec fn matches_view(p: Pair, v: PairView) -> bool
    decreases p,
{
    &&& p.rule == v.rule
    &&& p.text@ == v.text
    &&& p.inner@.len() == v.inner.len()
    &&& forall|i: int| 0 <= i < p.inner@.len() ==> matches_view(#[trigger] p.inner@[i], v.inner[i])
}

/// Whether two nodes hold the same rules, texts and children, all the way down.
pub open spec fn same_view(p: Pair, q: Pair) -> bool
    decreases p,
{
    &&& p.rule == q.rule
    &&& p.text@ == q.text@
    &&& p.inner@.len() == q.inner@.len()
    &&& forall|i: int| 0 <= i < p.inner@.len() ==> same_view(#[trigger] p.inner@[i], q.inner@[i])
}

/// Two nodes that hold what one view says hold the same view.
pub proof fn lemma_matches_view_unique(p: Pair, q: Pair, v: PairView)
    requires
        matches_view(p, v),
        matches_view(q, v),
    ensures
        same_view(p, q),
    decreases p,
{
    assert forall|i: int| 0 <= i < p.inner@.len() implies same_view(#[trigger] p.inner@[i], q.inner@[i]) by {
        assert(matches_view(p.inner@[i], v.inner[i]));
        assert(matches_view(q.inner@[i], v.inner[i]));
        lemma_matches_view_unique(p.inner@[i], q.inner@[i], v.inner[i]);
    }
}

impl Pair {
    /// The rule that the node matched.
    pub fn as_rule(&self) -> (r: Rule)
        ensures
            r == self.rule,
    {
        self.rule
    }

    /// The text that the node matched.
    pub fn as_str(&self) -> (r: &str)
        ensures
            r@ == self.text@,
    {
        self.text.as_str()
    }
}

} // verus!
