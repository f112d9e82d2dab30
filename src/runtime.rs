//! The acts table and the runtime cursor that walks the scenes statement by statement.
use vstd::prelude::*;

use crate::ast::{
    find_entry, has_key, keys_are_unique, keys_unique, lemma_value_at_key, value_at_key, Act, StageCommand, Statement,
};
use crate::grammar::chars_of;
use crate::invoke::{
    invoked, statement_ok, ActChangeMessage, InvokeContext, InvokeError, SceneChangeMessage,
};
use crate::loader::CompileError;

verus! {

/// Lexicographic order of texts by character: a proper prefix comes first.
pub open spec fn text_less(a: Seq<char>, b: Seq<char>) -> bool
    decreases a.len(),
{
    if b.len() == 0 {
        false
    } else if a.len() == 0 {
        true
    } else if a[0] != b[0] {
        a[0] < b[0]
    } else {
        text_less(a.drop_first(), b.drop_first())
    }
}

proof fn lemma_text_less_irreflexive(a: Seq<char>)
    ensures
        !text_less(a, a),
    decreases a.len(),
{
    if a.len() > 0 {
        lemma_text_less_irreflexive(a.drop_first());
    }
}

proof fn lemma_text_less_total(a: Seq<char>, b: Seq<char>)
    requires
        a != b,
    ensures
        text_less(a, b) || text_less(b, a),
    decreases a.len(),
{
    if a.len() > 0 && b.len() > 0 && a[0] == b[0] {
        if a.drop_first() == b.drop_first() {
            assert(a =~= seq![a[0]] + a.drop_first());
            assert(b =~= seq![b[0]] + b.drop_first());
        }
        lemma_text_less_total(a.drop_first(), b.drop_first());
    } else if a.len() == 0 && b.len() == 0 {
        assert(a =~= b);
    }
}

/// Whether the entry at `i` has a key that no key of the table comes before.
pub open spec fn is_least<T>(entries: Seq<(String, T)>, i: int) -> bool {
    0 <= i < entries.len() && forall|j: int|
        0 <= j < entries.len() ==> !text_less(#[trigger] entries[j].0@, entries[i].0@)
}

proof fn lemma_least_unique<T>(entries: Seq<(String, T)>, i: int, j: int)
    requires
        keys_unique(entries),
        is_least(entries, i),
        is_least(entries, j),
    ensures
        i == j,
{
    if i != j {
        lemma_text_less_total(entries[i].0@, entries[j].0@);
    }
}

proof fn lemma_text_less_transitive(a: Seq<char>, b: Seq<char>, c: Seq<char>)
    requires
        text_less(a, b),
        text_less(b, c),
    ensures
        text_less(a, c),
    decreases a.len(),
{
    if a.len() > 0 && b.len() > 0 && c.len() > 0 && a[0] == b[0] && b[0] == c[0] {
        lemma_text_less_transitive(a.drop_first(), b.drop_first(), c.drop_first());
    }
}

/// Whether `a` comes before `b` in the order of [`text_less`].
fn less_than(a: &String, b: &String) -> (r: bool)
    ensures
        r == text_less(a@, b@),
{
    let x = chars_of(a.as_str());
    let y = chars_of(b.as_str());
    let mut i: usize = 0;
    assert(x@.skip(0) =~= x@);
    assert(y@.skip(0) =~= y@);
    while i < x.len() && i < y.len() && x[i] == y[i]
        invariant
            i <= x@.len(),
            i <= y@.len(),
            text_less(x@, y@) == text_less(x@.skip(i as int), y@.skip(i as int)),
        decreases x@.len() - i,
    {
        assert(x@.skip(i as int).drop_first() =~= x@.skip(i + 1));
        assert(y@.skip(i as int).drop_first() =~= y@.skip(i + 1));
        i = i + 1;
    }
    if i == y.len() {
        false
    } else if i == x.len() {
        true
    } else {
        x[i] < y[i]
    }
}

/// The acts of the program under their ids, in the order they were loaded. No two share
/// an id.
pub struct Acts {
    entries: Vec<(String, Act)>,
}

impl View for Acts {
    type V = Seq<(String, Act)>;

    closed spec fn view(&self) -> Seq<(String, Act)> {
        self.entries@
    }
}

impl Acts {
    /// No two acts share an id, and no two scenes of an act share an id.
    pub open spec fn wf(&self) -> bool {
        &&& keys_unique(self@)
        &&& forall|i: int| 0 <= i < self@.len() ==> keys_unique(#[trigger] self@[i].1.scenes@)
    }

    /// An empty table.
    pub fn new() -> (r: Acts)
        ensures
            r@.len() == 0,
            r.wf(),
    {
        Acts { entries: Vec::new() }
    }

    /// The number of acts.
    pub fn len(&self) -> (r: usize)
        ensures
            r == self@.len(),
    {
        self.entries.len()
    }

    /// Adds an act under an id that no act has yet. An id already taken fails the load,
    /// and so does an act in which two scenes share an id.
    pub fn insert(&mut self, act_id: String, act: Act) -> (r: Result<(), LoadError>)
        requires
            old(self).wf(),
        ensures
            final(self).wf(),
            r is Err <==> has_key(old(self)@, act_id@) || !keys_unique(act.scenes@),
            r is Ok ==> final(self)@ == old(self)@.push((act_id, act)),
            r is Err ==> final(self)@ == old(self)@,
            has_key(old(self)@, act_id@) ==> r == Err::<(), LoadError>(LoadError::DuplicateAct { act_id }),
            !has_key(old(self)@, act_id@) && !keys_unique(act.scenes@) ==> r == Err::<(), LoadError>(
                LoadError::DuplicateScene { act_id },
            ),
    {
        match find_entry(&self.entries, &act_id) {
            Some(_) => Err(LoadError::DuplicateAct { act_id }),
            None => {
                if !keys_are_unique(&act.scenes) {
                    return Err(LoadError::DuplicateScene { act_id });
                }
                let ghost before = self.entries@;
                self.entries.push((act_id, act));
                proof {
                    assert forall|a: int, b: int|
                        0 <= a < self.entries@.len() && 0 <= b < self.entries@.len() && a
                            != b implies #[trigger] self.entries@[a].0@
                        != #[trigger] self.entries@[b].0@ by {
                        if a < before.len() && b < before.len() {
                            assert(before[a].0@ != before[b].0@);
                        }
                    }
                    assert forall|i: int| 0 <= i < self.entries@.len() implies keys_unique(
                        #[trigger] self.entries@[i].1.scenes@,
                    ) by {
                        if i < before.len() {
                            assert(self.entries@[i] == before[i]);
                        }
                    }
                }
                Ok(())
            },
        }
    }

    /// The index of the act with the given id.
    pub fn index_of(&self, act_id: &String) -> (r: Option<usize>)
        ensures
            r is Some <==> has_key(self@, act_id@),
            r is Some ==> r->0 < self@.len() && self@[r->0 as int].0@ == act_id@,
    {
        find_entry(&self.entries, act_id)
    }

    /// The id and the act at an index.
    pub fn entry(&self, i: usize) -> (r: &(String, Act))
        requires
            i < self@.len(),
        ensures
            *r == self@[i as int],
    {
        &self.entries[i]
    }

    /// The act with the given id.
    pub fn get(&self, act_id: &String) -> (r: Option<&Act>)
        ensures
            r is Some <==> has_key(self@, act_id@),
            r is Some ==> exists|i: int|
                0 <= i < self@.len() && self@[i].0@ == act_id@ && #[trigger] self@[i].1 == *r->0,
    {
        match find_entry(&self.entries, act_id) {
            Some(i) => {
                let act = &self.entries[i].1;
                assert(self@[i as int].1 == *act);
                Some(act)
            },
            None => None,
        }
    }

    /// The index of the act whose id comes first in the order of [`text_less`].
    pub fn first_index(&self) -> (r: Option<usize>)
        ensures
            r is Some <==> self@.len() > 0,
            r is Some ==> r->0 < self@.len() && forall|j: int|
                0 <= j < self@.len() ==> !text_less(#[trigger] self@[j].0@, self@[r->0 as int].0@),
    {
        if self.entries.len() == 0 {
            return None;
        }
        let mut best: usize = 0;
        let mut k: usize = 1;
        proof {
            lemma_text_less_irreflexive(self.entries@[0].0@);
        }
        while k < self.entries.len()
            invariant
                1 <= k <= self.entries@.len(),
                best < k,
                forall|j: int|
                    0 <= j < k ==> !text_less(#[trigger] self.entries@[j].0@, self.entries@[best as int].0@),
            decreases self.entries@.len() - k,
        {
            if less_than(&self.entries[k].0, &self.entries[best].0) {
                proof {
                    let nb = self.entries@[k as int].0@;
                    let ob = self.entries@[best as int].0@;
                    assert forall|j: int| 0 <= j <= k implies !text_less(
                        #[trigger] self.entries@[j].0@,
                        nb,
                    ) by {
                        if j == k {
                            lemma_text_less_irreflexive(nb);
                        } else if text_less(self.entries@[j].0@, nb) {
                            lemma_text_less_transitive(self.entries@[j].0@, nb, ob);
                        }
                    }
                }
                best = k;
            }
            k = k + 1;
        }
        Some(best)
    }
}

/// Why the load of the scripts failed.
#[derive(Debug, PartialEq, Eq)]
pub enum LoadError {
    /// Two script files give the same act id.
    DuplicateAct { act_id: String },
    /// Two scenes of the act share an id.
    DuplicateScene { act_id: String },
    /// No script was loaded.
    NoActs,
    /// The act to start with lacks its entrypoint scene.
    EntrypointNotFound { act_id: String, scene_id: String },
    /// A file that is no script.
    NotAScript { file_name: String },
    /// A script that does not compile.
    Compile { act_id: String, error: CompileError },
}

/// Why a scene or act change failed.
#[derive(Debug, PartialEq, Eq)]
pub enum NavigationError {
    /// The current act has no scene with the id.
    SceneNotFound { scene_id: String, act_id: String },
    /// No act has the id.
    ActNotFound { act_id: String },
    /// The act lacks its entrypoint scene.
    EntrypointNotFound { act_id: String, scene_id: String },
}

/// A statement failed while the runtime ran it.
#[derive(Debug, PartialEq, Eq)]
pub struct RuntimeError {
    pub act_id: String,
    pub scene_id: String,
    pub position: usize,
    pub error: InvokeError,
}

/// Whether a statement asks for another scene or act.
pub open spec fn is_navigation(s: Statement) -> bool {
    s matches Statement::Stage(StageCommand::SceneChange { .. }) || s matches Statement::Stage(
        StageCommand::ActChange { .. },
    )
}

fn navigates(s: &Statement) -> (r: bool)
    ensures
        r == is_navigation(*s),
{
    match s {
        Statement::Stage(StageCommand::SceneChange { .. }) => true,
        Statement::Stage(StageCommand::ActChange { .. }) => true,
        _ => false,
    }
}

/// The contexts `cs` are those before and after each of the statements that ran from
/// `from` on: each ran on an unblocked context, none after a statement that navigates
/// away, and each took its context to the next.
pub open spec fn steps(stmts: Seq<Statement>, from: int, cs: Seq<InvokeContext>) -> bool {
    forall|i: int|
        #![trigger cs[i]]
        0 <= i < cs.len() - 1 ==> {
            &&& !cs[i].blocking
            &&& (i > 0 ==> !is_navigation(stmts[from + i - 1]))
            &&& invoked(cs[i], cs[i + 1], stmts[from + i])
        }
}

/// The statements `from .. to` ran one after another and took the context from `c0` to
/// `c1`, as [`steps`] describes.
pub open spec fn ran(
    stmts: Seq<Statement>,
    from: int,
    to: int,
    c0: InvokeContext,
    c1: InvokeContext,
) -> bool {
    exists|cs: Seq<InvokeContext>|
        #[trigger] steps(stmts, from, cs) && cs.len() == to - from + 1 && cs[0] == c0 && cs.last()
            == c1
}

/// The cursor of the runtime: the acts, the current act and scene, the position of the
/// next statement in the scene, and whether the script waits for the presentation.
pub struct VisualNovelState {
    acts: Acts,
    act_index: usize,
    scene_index: usize,
    position: usize,
    blocking: bool,
}

impl VisualNovelState {
    /// The current act and scene exist and the position lies within the scene.
    pub closed spec fn wf(&self) -> bool {
        &&& self.acts.wf()
        &&& self.act_index < self.acts@.len()
        &&& self.scene_index < self.act().scenes@.len()
        &&& self.position <= self.statements().len()
    }

    /// The acts of the program.
    pub closed spec fn acts_view(&self) -> Seq<(String, Act)> {
        self.acts@
    }

    /// The id of the current act.
    pub closed spec fn act_key(&self) -> String {
        self.acts@[self.act_index as int].0
    }

    /// The current act.
    pub closed spec fn act(&self) -> Act {
        self.acts@[self.act_index as int].1
    }

    /// The id of the current scene.
    pub closed spec fn scene_key(&self) -> String {
        self.act().scenes@[self.scene_index as int].0
    }

    /// The statements of the current scene.
    pub closed spec fn statements(&self) -> Seq<Statement> {
        self.act().scenes@[self.scene_index as int].1.statements@
    }

    /// The position of the next statement to run.
    pub closed spec fn pos(&self) -> nat {
        self.position as nat
    }

    /// Whether the script waits for the presentation.
    pub closed spec fn blocked(&self) -> bool {
        self.blocking
    }

    /// The current act is the act under the current act id, and the statements that the
    /// cursor runs are those of the scene under the current scene id.
    pub open spec fn at_keys(&self) -> bool {
        &&& has_key(self.acts_view(), self.act_key()@)
        &&& self.act() == value_at_key(self.acts_view(), self.act_key()@)
        &&& has_key(self.act().scenes@, self.scene_key()@)
        &&& self.statements() == value_at_key(self.act().scenes@, self.scene_key()@).statements@
    }

    /// A well-formed cursor stands at the act and scene under its ids.
    pub proof fn lemma_at_keys(&self)
        requires
            self.wf(),
        ensures
            self.at_keys(),
    {
        lemma_value_at_key(self.acts@, self.act_index as int);
        assert(keys_unique(self.acts@[self.act_index as int].1.scenes@));
        lemma_value_at_key(self.act().scenes@, self.scene_index as int);
    }

    /// Starts at the entrypoint scene of the act whose id comes first.
    pub fn new(acts: Acts) -> (r: Result<VisualNovelState, LoadError>)
        requires
            acts.wf(),
        ensures
            r is Err && r->Err_0 is NoActs <==> acts@.len() == 0,
            r is Ok <==> acts@.len() > 0 && forall|i: int|
                is_least(acts@, i) ==> has_key(acts@[i].1.scenes@, #[trigger] acts@[i].1.entrypoint@),
            r is Err ==> r->Err_0 is NoActs || r->Err_0 is EntrypointNotFound,
            r is Ok ==> {
                let s = r->Ok_0;
                &&& s.wf()
                &&& s.at_keys()
                &&& s.acts_view() == acts@
                &&& forall|j: int| 0 <= j < acts@.len() ==> !text_less(#[trigger] acts@[j].0@, s.act_key()@)
                &&& s.scene_key()@ == s.act().entrypoint@
                &&& s.pos() == 0
                &&& !s.blocked()
            },
            r matches Err(LoadError::EntrypointNotFound { act_id, scene_id }) ==> exists|i: int|
                is_least(acts@, i) && #[trigger] acts@[i].0 == act_id && scene_id == acts@[i].1.entrypoint
                    && !has_key(acts@[i].1.scenes@, scene_id@),
    {
        let first = match acts.first_index() {
            Some(i) => i,
            None => return Err(LoadError::NoActs),
        };
        let act = &acts.entry(first).1;
        match find_entry(&act.scenes, &act.entrypoint) {
            Some(scene_index) => {
                proof {
                    assert forall|i: int| is_least(acts@, i) implies has_key(
                        acts@[i].1.scenes@,
                        #[trigger] acts@[i].1.entrypoint@,
                    ) by {
                        lemma_least_unique(acts@, i, first as int);
                    }
                }
                let s = VisualNovelState { acts, act_index: first, scene_index, position: 0, blocking: false };
                proof {
                    s.lemma_at_keys();
                }
                Ok(s)
            },
            None => {
                assert(is_least(acts@, first as int));
                let act_id = acts.entry(first).0.clone();
                let scene_id = act.entrypoint.clone();
                Err(LoadError::EntrypointNotFound { act_id, scene_id })
            },
        }
    }

    /// The id of the current act.
    pub fn current_act_id(&self) -> (r: &String)
        requires
            self.wf(),
        ensures
            *r == self.act_key(),
    {
        &self.acts.entry(self.act_index).0
    }

    /// The id of the current scene.
    pub fn current_scene_id(&self) -> (r: &String)
        requires
            self.wf(),
        ensures
            *r == self.scene_key(),
    {
        &self.acts.entry(self.act_index).1.scenes[self.scene_index].0
    }

    /// The position of the next statement to run.
    pub fn position(&self) -> (r: usize)
        ensures
            r == self.pos(),
    {
        self.position
    }

    /// Whether every statement of the current scene has run.
    pub fn is_exhausted(&self) -> (r: bool)
        requires
            self.wf(),
        ensures
            r == (self.pos() == self.statements().len()),
    {
        self.position == self.acts.entry(self.act_index).1.scenes[self.scene_index].1.statements.len()
    }

    /// Whether the script waits for the presentation.
    pub fn is_blocking(&self) -> (r: bool)
        ensures
            r == self.blocked(),
    {
        self.blocking
    }

    /// The presentation acknowledges what the script waited for.
    pub fn clear_blocking(&mut self)
        requires
            old(self).wf(),
        ensures
            final(self).wf(),
            final(self).at_keys(),
            !final(self).blocked(),
            final(self).acts_view() == old(self).acts_view(),
            final(self).act_key() == old(self).act_key(),
            final(self).act() == old(self).act(),
            final(self).scene_key() == old(self).scene_key(),
            final(self).statements() == old(self).statements(),
            final(self).pos() == old(self).pos(),
    {
        self.blocking = false;
        proof {
            self.lemma_at_keys();
        }
    }

    /// One tick: while the script does not wait, runs the next statement of the scene,
    /// until the script waits, the scene is exhausted, or a statement asks for another
    /// scene or act. The context starts with the cursor's blocking flag, and the cursor
    /// keeps the flag that the statements leave. A statement that fails is passed over.
    pub fn run(&mut self, ctx: &mut InvokeContext) -> (r: Result<(), RuntimeError>)
        requires
            old(self).wf(),
        ensures
            final(self).wf(),
            final(self).at_keys(),
            final(self).acts_view() == old(self).acts_view(),
            final(self).act_key() == old(self).act_key(),
            final(self).act() == old(self).act(),
            final(self).scene_key() == old(self).scene_key(),
            final(self).statements() == old(self).statements(),
            old(self).pos() <= final(self).pos() <= final(self).statements().len(),
            final(self).blocked() == final(ctx).blocking,
            r is Ok ==> ran(
                old(self).statements(),
                old(self).pos() as int,
                final(self).pos() as int,
                InvokeContext { blocking: old(self).blocked(), ..*old(ctx) },
                *final(ctx),
            ),
            r is Ok ==> final(self).blocked() || final(self).pos() == final(self).statements().len()
                || (final(self).pos() > old(self).pos() && is_navigation(
                final(self).statements()[final(self).pos() - 1],
            )),
            r is Err ==> {
                let p = final(self).pos() - 1;
                &&& final(self).pos() > old(self).pos()
                &&& ran(
                    old(self).statements(),
                    old(self).pos() as int,
                    p,
                    InvokeContext { blocking: old(self).blocked(), ..*old(ctx) },
                    *final(ctx),
                )
                &&& !final(ctx).blocking
                &&& p > old(self).pos() ==> !is_navigation(old(self).statements()[p - 1])
                &&& !statement_ok(old(self).statements()[p])
                &&& r->Err_0.position == p
                &&& r->Err_0.act_id == old(self).act_key()
                &&& r->Err_0.scene_id == old(self).scene_key()
            },
    {
        ctx.blocking = self.blocking;
        let ghost c0 = *ctx;
        let ghost origin = self.position as int;
        let start = self.position;
        let ghost stmts = self.statements();
        let ai = self.act_index;
        let si = self.scene_index;
        let n = self.acts.entry(ai).1.scenes[si].1.statements.len();
        let ghost mut cs: Seq<InvokeContext> = seq![c0];
        loop
            invariant
                self.wf(),
                self.act_index == ai,
                self.scene_index == si,
                self.acts == old(self).acts,
                stmts == self.statements(),
                n == stmts.len(),
                origin == old(self).pos(),
                start == origin,
                ai == old(self).act_index,
                si == old(self).scene_index,
                origin <= self.position <= n,
                c0 == (InvokeContext { blocking: old(self).blocked(), ..*old(ctx) }),
                steps(stmts, origin, cs),
                cs.len() == self.position - origin + 1,
                cs[0] == c0,
                cs.last() == *ctx,
            ensures
                self.wf(),
                self.act_index == ai,
                self.scene_index == si,
                self.acts == old(self).acts,
                origin <= self.position <= n,
                steps(stmts, origin, cs),
                cs.len() == self.position - origin + 1,
                cs[0] == c0,
                cs.last() == *ctx,
                ctx.blocking || self.position == n || (self.position > origin && is_navigation(
                    stmts[self.position - 1],
                )),
            decreases n - self.position,
        {
            if ctx.blocking || self.position >= n {
                break;
            }
            if self.position > start && navigates(
                &self.acts.entry(ai).1.scenes[si].1.statements[self.position - 1],
            ) {
                break;
            }
            let ghost before = *ctx;
            let ghost at = self.position as int;
            let result = self.acts.entry(ai).1.scenes[si].1.statements[self.position].invoke(ctx);
            match result {
                Ok(()) => {
                    self.position = self.position + 1;
                    proof {
                        let old_cs = cs;
                        cs = cs.push(*ctx);
                        assert forall|i: int| 0 <= i < cs.len() - 1 implies {
                            &&& !(#[trigger] cs[i]).blocking
                            &&& (i > 0 ==> !is_navigation(stmts[origin + i - 1]))
                            &&& invoked(cs[i], cs[i + 1], stmts[origin + i])
                        } by {
                            if i < old_cs.len() - 1 {
                                assert(old_cs[i] == cs[i]);
                                assert(old_cs[i + 1] == cs[i + 1]);
                            }
                        }
                    }
                },
                Err(error) => {
                    self.position = self.position + 1;
                    self.blocking = ctx.blocking;
                    let act_id = self.acts.entry(ai).0.clone();
                    let scene_id = self.acts.entry(ai).1.scenes[si].0.clone();
                    assert(steps(stmts, origin, cs));
                    proof {
                        self.lemma_at_keys();
                    }
                    return Err(RuntimeError { act_id, scene_id, position: self.position - 1, error });
                },
            }
        }
        self.blocking = ctx.blocking;
        assert(steps(stmts, origin, cs));
        proof {
            self.lemma_at_keys();
        }
        Ok(())
    }

    /// Continues with another scene of the current act, from its first statement. An
    /// unknown scene id leaves the cursor as it was.
    pub fn handle_scene_change(&mut self, msg: &SceneChangeMessage) -> (r: Result<(), NavigationError>)
        requires
            old(self).wf(),
        ensures
            final(self).wf(),
            final(self).at_keys(),
            final(self).acts_view() == old(self).acts_view(),
            final(self).act_key() == old(self).act_key(),
            final(self).act() == old(self).act(),
            r is Ok <==> has_key(old(self).act().scenes@, msg.scene_id@),
            r is Ok ==> {
                &&& final(self).scene_key()@ == msg.scene_id@
                &&& final(self).pos() == 0
                &&& !final(self).blocked()
            },
            r is Err ==> *final(self) == *old(self) && r->Err_0 == (NavigationError::SceneNotFound {
                scene_id: msg.scene_id,
                act_id: old(self).act_key(),
            }),
    {
        let found = find_entry(&self.acts.entry(self.act_index).1.scenes, &msg.scene_id);
        match found {
            Some(i) => {
                self.scene_index = i;
                self.position = 0;
                self.blocking = false;
                proof {
                    self.lemma_at_keys();
                }
                Ok(())
            },
            None => {
                let act_id = self.acts.entry(self.act_index).0.clone();
                proof {
                    self.lemma_at_keys();
                }
                Err(NavigationError::SceneNotFound { scene_id: msg.scene_id.clone(), act_id })
            },
        }
    }

    /// Continues with another act, from its entrypoint scene. An unknown act, or one that
    /// lacks its entrypoint scene, leaves the cursor as it was.
    pub fn handle_act_change(&mut self, msg: &ActChangeMessage) -> (r: Result<(), NavigationError>)
        requires
            old(self).wf(),
        ensures
            final(self).wf(),
            final(self).at_keys(),
            final(self).acts_view() == old(self).acts_view(),
            r is Ok <==> has_key(old(self).acts_view(), msg.act_id@) && has_key(
                value_at_key(old(self).acts_view(), msg.act_id@).scenes@,
                value_at_key(old(self).acts_view(), msg.act_id@).entrypoint@,
            ),
            r is Ok ==> {
                &&& final(self).act_key()@ == msg.act_id@
                &&& final(self).act() == value_at_key(old(self).acts_view(), msg.act_id@)
                &&& final(self).scene_key()@ == final(self).act().entrypoint@
                &&& final(self).pos() == 0
                &&& !final(self).blocked()
            },
            r is Err ==> *final(self) == *old(self),
            r is Err && !has_key(old(self).acts_view(), msg.act_id@) ==> r->Err_0
                == (NavigationError::ActNotFound { act_id: msg.act_id }),
            r is Err && has_key(old(self).acts_view(), msg.act_id@) ==> r->Err_0
                == (NavigationError::EntrypointNotFound {
                act_id: msg.act_id,
                scene_id: value_at_key(old(self).acts_view(), msg.act_id@).entrypoint,
            }),
    {
        proof {
            self.lemma_at_keys();
        }
        let target = match self.acts.index_of(&msg.act_id) {
            Some(i) => i,
            None => return Err(NavigationError::ActNotFound { act_id: msg.act_id.clone() }),
        };
        proof {
            lemma_value_at_key(self.acts@, target as int);
        }
        let act = &self.acts.entry(target).1;
        match find_entry(&act.scenes, &act.entrypoint) {
            Some(scene_index) => {
                self.act_index = target;
                self.scene_index = scene_index;
                self.position = 0;
                self.blocking = false;
                proof {
                    self.lemma_at_keys();
                }
                Ok(())
            },
            None => Err(
                NavigationError::EntrypointNotFound {
                    act_id: msg.act_id.clone(),
                    scene_id: act.entrypoint.clone(),
                },
            ),
        }
    }
}

} // verus!
