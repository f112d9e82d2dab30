//! Compiling script files into acts and collecting them into the acts table.
use vstd::prelude::*;

use crate::ast::{has_key, Act, Dialogue, Statement};
use crate::builder::{
    lemma_build_counts_depend_on_view, lemma_build_depends_on_view, lemma_same_error_symmetric,
    same_error, total_statements,
    act_error, act_matches, act_spec_error, build_scenes, chain_spec, dialogue_emotion_spec,
    dialogue_rest_spec, expression_spec, exprs_spec, primary_spec, scene_body_error, stage_spec,
    statement_error, BuildError,
};
use crate::expr::Expr;
use crate::grammar::{
    parses_to, tree_of, act_shape, chars_of, code_shape, dialogue_part_shape, dialogue_start, expr_shape,
    primary_shape, scene_shape, script_result, stage_shape, statement_shape, SabiParser,
    SyntaxError,
};
use crate::runtime::{Acts, LoadError};
use crate::tree::{lemma_matches_view_unique, Pair, Rule};

verus! {

/// Why a script file does not compile.
#[derive(Debug, PartialEq, Eq)]
pub enum CompileError {
    Syntax(SyntaxError),
    Build(BuildError),
}

/// The build errors that a tree of the grammar can still meet: a number that does not fit
/// 64 bits, an unknown GUI target or character verb, two scenes with one id, no scene.
pub open spec fn is_named_error(e: BuildError) -> bool {
    ||| e is InvalidNumber
    ||| e is UnknownGuiElement
    ||| e is UnknownCharacterAction
    ||| e is DuplicateScene
    ||| e is NoScenes
}

/// An expression result that is a value or a number that does not fit.
pub open spec fn expr_result_ok(r: Result<Expr, BuildError>) -> bool {
    r is Ok || r->Err_0 is InvalidNumber
}

proof fn lemma_primary_builds(q: Pair)
    requires
        primary_shape(q),
    ensures
        expr_result_ok(primary_spec(q)),
    decreases q, 2nat,
{
    if q.rule == Rule::Expr {
        lemma_expr_builds(q);
    }
}

proof fn lemma_chain_builds(p: Pair, m: nat)
    requires
        expr_shape(p),
        m >= 1,
        2 * m - 2 < p.inner@.len(),
    ensures
        expr_result_ok(chain_spec(p, m)),
    decreases p, 0nat, m,
{
    assert(primary_shape(p.inner@[0]));
    lemma_primary_builds(p.inner@[0]);
    if m > 1 {
        lemma_chain_builds(p, (m - 1) as nat);
        let k = 2 * m - 2;
        assert(primary_shape(p.inner@[k]));
        assert(p.inner@[k - 1].rule == Rule::Add);
        lemma_primary_builds(p.inner@[k]);
    }
}

proof fn lemma_expr_builds(p: Pair)
    requires
        expr_shape(p),
    ensures
        expr_result_ok(expression_spec(p)),
    decreases p, 1nat,
{
    lemma_chain_builds(p, ((p.inner@.len() + 1) / 2) as nat);
}

proof fn lemma_stage_builds(q: Pair)
    requires
        stage_shape(q),
    ensures
        stage_spec(q) is Ok || is_named_error(stage_spec(q)->Err_0),
{
    let c = q.inner@[0];
    match c.rule {
        Rule::BackgroundChange | Rule::SceneChange
        | Rule::ActChange => {
            lemma_expr_builds(c.inner@[0]);
        },
        Rule::GuiChange => {
            lemma_expr_builds(c.inner@[1]);
        },
        _ => {},
    }
}

proof fn lemma_exprs_build(items: Seq<Pair>, k: nat)
    requires
        k <= items.len(),
        forall|i: int| 0 <= i < items.len() ==> expr_shape(#[trigger] items[i]),
    ensures
        exprs_spec(items, k) is Ok || exprs_spec(items, k)->Err_0 is InvalidNumber,
    decreases k,
{
    if k > 0 {
        lemma_exprs_build(items, (k - 1) as nat);
        lemma_expr_builds(items[k - 1]);
    }
}

proof fn lemma_dialogue_rest_builds(p: Pair, character: String, acc: Seq<Statement>, from: nat, k: nat)
    requires
        k <= p.inner@.len(),
        forall|i: int| from <= i < p.inner@.len() ==> dialogue_part_shape(#[trigger] p.inner@[i]),
    ensures
        dialogue_rest_spec(p, character, acc, from, k) is Ok || is_named_error(
            dialogue_rest_spec(p, character, acc, from, k)->Err_0,
        ),
    decreases k,
{
    if k > from {
        lemma_dialogue_rest_builds(p, character, acc, from, (k - 1) as nat);
        let q = p.inner@[k - 1];
        assert(dialogue_part_shape(q));
        if q.rule == Rule::Expr {
            lemma_expr_builds(q);
        } else {
            lemma_stage_builds(q);
        }
    }
}

proof fn lemma_statement_builds(q: Pair)
    requires
        statement_shape(q),
    ensures
        statement_error(q) is None || is_named_error(statement_error(q)->0),
{
    if code_shape(q) {
        lemma_exprs_build(q.inner@[0].inner@, q.inner@[0].inner@.len());
    } else if stage_shape(q) {
        lemma_stage_builds(q);
    } else {
        let start = dialogue_start(q);
        assert(dialogue_part_shape(q.inner@[start]));
        lemma_expr_builds(q.inner@[start]);
        let character = q.inner@[0].text;
        match dialogue_emotion_spec(q, character) {
            Ok(lead) => {
                match expression_spec(q.inner@[start]) {
                    Ok(e) => {
                        lemma_dialogue_rest_builds(
                            q,
                            character,
                            lead.push(
                                Statement::Dialogue(
                                    Dialogue { character, dialogue: e },
                                ),
                            ),
                            (start + 1) as nat,
                            q.inner@.len(),
                        );
                    },
                    Err(_) => {},
                }
            },
            Err(_) => {},
        }
    }
}

proof fn lemma_scene_body_builds(items: Seq<Pair>, k: nat)
    requires
        k <= items.len(),
        forall|i: int| 1 <= i < items.len() ==> statement_shape(#[trigger] items[i]),
    ensures
        scene_body_error(items, k) is None || is_named_error(scene_body_error(items, k)->0),
    decreases k,
{
    if k > 1 {
        lemma_scene_body_builds(items, (k - 1) as nat);
        lemma_statement_builds(items[k - 1]);
    }
}

proof fn lemma_act_children_build(items: Seq<Pair>, k: nat)
    requires
        k <= items.len(),
        items.len() >= 1,
        items[items.len() - 1].rule == Rule::Eoi,
        forall|i: int| 0 <= i < items.len() - 1 ==> scene_shape(#[trigger] items[i]),
    ensures
        act_error(items, k) is None || is_named_error(act_error(items, k)->0),
    decreases k,
{
    if k > 0 {
        lemma_act_children_build(items, (k - 1) as nat);
        let q = items[k - 1];
        if k - 1 < items.len() - 1 {
            assert(scene_shape(q));
            lemma_scene_body_builds(q.inner@, q.inner@.len());
        }
    }
}

/// A script that follows the grammar builds, unless it meets one of the named build
/// errors: a number that does not fit, an unknown GUI target or character verb, two
/// scenes with one id, or no scene at all.
pub proof fn lemma_parsed_act_builds(p: Pair)
    requires
        act_shape(p),
    ensures
        act_spec_error(p) is None || is_named_error(act_spec_error(p)->0),
{
    lemma_act_children_build(p.inner@, p.inner@.len());
}

/// Whether a script follows the grammar and the tree it parses to builds.
pub open spec fn compiles(s: Seq<char>) -> bool {
    script_result(s) is Ok && exists|p: Pair| #[trigger] parses_to(s, p) && act_spec_error(p) is None
}

/// Whether an act is what a script compiles into: what the tree that the script parses
/// to builds into.
pub open spec fn compiled_from(s: Seq<char>, act: Act) -> bool {
    exists|p: Pair| #[trigger] parses_to(s, p) && act_spec_error(p) is None && act_matches(p, act)
}

/// Compiling is stable: two acts compiled from one script have the same scene ids, in
/// the same order, each scene with as many statements, and as many statements in all.
pub proof fn lemma_compile_stable(s: Seq<char>, a1: Act, a2: Act)
    requires
        compiled_from(s, a1),
        compiled_from(s, a2),
    ensures
        a1.scenes@.len() == a2.scenes@.len(),
        a1.entrypoint@ == a2.entrypoint@,
        forall|j: int|
            0 <= j < a1.scenes@.len() ==> (#[trigger] a1.scenes@[j]).0@ == a2.scenes@[j].0@
                && a1.scenes@[j].1.statements@.len() == a2.scenes@[j].1.statements@.len(),
        total_statements(a1.scenes@) == total_statements(a2.scenes@),
{
    let first_tree = choose|p: Pair| #[trigger] parses_to(s, p) && act_spec_error(p) is None && act_matches(p, a1);
    let second_tree = choose|p: Pair| #[trigger] parses_to(s, p) && act_spec_error(p) is None && act_matches(p, a2);
    lemma_matches_view_unique(first_tree, second_tree, tree_of(s));
    lemma_build_counts_depend_on_view(first_tree, second_tree, a1, a2);
}

/// Parses the text of a script file and builds it into an act. It succeeds exactly when
/// the script compiles; a syntax error comes back exactly when the text does not follow
/// the grammar, and a build error is then the named error of the tree the text parses to.
pub fn compile_act(text: &str) -> (r: Result<Act, CompileError>)
    ensures
        text@.len() < usize::MAX ==> (r is Ok <==> compiles(text@)),
        text@.len() < usize::MAX ==> (r matches Err(CompileError::Syntax(_)) <==> script_result(
            text@,
        ) is Err),
        text@.len() < usize::MAX ==> (r matches Err(CompileError::Syntax(e)) ==> script_result(
            text@,
        ) == Err::<(), int>(e.position as int)),
        r is Ok ==> r->Ok_0.wf() && compiled_from(text@, r->Ok_0),
        r matches Err(CompileError::Build(e)) ==> is_named_error(e) && script_result(text@) is Ok
            && forall|p: Pair| #[trigger]
            parses_to(text@, p) ==> act_spec_error(p) is Some && same_error(act_spec_error(p)->0, e),
        r matches Err(CompileError::Syntax(e)) ==> e.position <= text@.len(),
{
    let tree = match SabiParser::parse(text) {
        Ok(tree) => tree,
        Err(e) => return Err(CompileError::Syntax(e)),
    };
    match build_scenes(&tree) {
        Ok(act) => {
            assert(parses_to(text@, tree) && act_spec_error(tree) is None && act_matches(tree, act));
            Ok(act)
        },
        Err(e) => {
            proof {
                lemma_parsed_act_builds(tree);
                assert forall|p: Pair| #[trigger] parses_to(text@, p) implies act_spec_error(p) is Some
                    && same_error(act_spec_error(p)->0, e) by {
                    lemma_matches_view_unique(p, tree, tree_of(text@));
                    lemma_build_depends_on_view(p, tree);
                    lemma_same_error_symmetric(act_spec_error(p)->0, e);
                }
            }
            Err(CompileError::Build(e))
        },
    }
}

/// The act id of a script file: its name without the `.sabi` extension, when it has
/// that extension and something before it.
pub open spec fn script_stem(name: Seq<char>) -> Option<Seq<char>> {
    if name.len() > 5 && name.skip(name.len() - 5) == ".sabi"@ {
        Some(name.take(name.len() - 5))
    } else {
        None
    }
}

/// The act id that a script file's name gives, if it names a script.
pub fn script_act_id(file_name: &str) -> (r: Option<String>)
    ensures
        r is Some <==> script_stem(file_name@) is Some,
        r is Some ==> r->0@ == script_stem(file_name@)->0,
{
    let chars = chars_of(file_name);
    let n = chars.len();
    if n <= 5 {
        return None;
    }
    proof {
        reveal_strlit(".sabi");
    }
    let ext = file_name.substring_char(n - 5, n);
    assert(ext@ == file_name@.skip(n - 5));
    if !(chars[n - 5] == '.' && chars[n - 4] == 's' && chars[n - 3] == 'a' && chars[n - 2] == 'b'
        && chars[n - 1] == 'i') {
        proof {
            if file_name@.skip(n - 5) == ".sabi"@ {
                assert(file_name@.skip(n - 5)[0] == file_name@[n - 5]);
                assert(file_name@.skip(n - 5)[1] == file_name@[n - 4]);
                assert(file_name@.skip(n - 5)[2] == file_name@[n - 3]);
                assert(file_name@.skip(n - 5)[3] == file_name@[n - 2]);
                assert(file_name@.skip(n - 5)[4] == file_name@[n - 1]);
            }
        }
        return None;
    }
    assert(file_name@.skip(n - 5) =~= ".sabi"@);
    Some(file_name.substring_char(0, n - 5).to_owned())
}

/// Compiles a script file and adds its act to the table under the id that the file's
/// name gives. A file that is no script, a script that does not compile and an id that
/// the table already has each fail the load, and leave the table as it was.
pub fn load_act(acts: &mut Acts, file_name: &str, text: &str) -> (r: Result<(), LoadError>)
    requires
        old(acts).wf(),
    ensures
        final(acts).wf(),
        script_stem(file_name@) is None <==> r matches Err(LoadError::NotAScript { .. }),
        r matches Err(LoadError::NotAScript { file_name: f }) ==> f@ == file_name@,
        text@.len() < usize::MAX ==> (r is Ok <==> script_stem(file_name@) is Some && compiles(text@)
            && !has_key(old(acts)@, script_stem(file_name@)->0)),
        r is Ok ==> script_stem(file_name@) is Some && !has_key(old(acts)@, script_stem(file_name@)->0)
            && final(acts)@.len() == old(acts)@.len() + 1 && final(acts)@.drop_last() == old(acts)@
            && final(acts)@.last().0@ == script_stem(file_name@)->0 && final(acts)@.last().1.wf()
            && compiled_from(text@, final(acts)@.last().1),
        r matches Err(LoadError::Compile { act_id, .. }) ==> Some(act_id@) == script_stem(file_name@),
        text@.len() < usize::MAX && script_stem(file_name@) is Some && compiles(text@) && has_key(
            old(acts)@,
            script_stem(file_name@)->0,
        ) ==> (r matches Err(LoadError::DuplicateAct { act_id }) && Some(act_id@) == script_stem(
            file_name@,
        )),
        r is Err ==> final(acts)@ == old(acts)@,
        r matches Err(LoadError::DuplicateAct { act_id }) ==> has_key(old(acts)@, act_id@) && Some(
            act_id@,
        ) == script_stem(file_name@),
        script_stem(file_name@) is Some && text@.len() < usize::MAX ==> (r matches Err(
            LoadError::Compile { error: CompileError::Syntax(_), .. },
        ) <==> script_result(text@) is Err),
{
    let act_id = match script_act_id(file_name) {
        Some(id) => id,
        None => return Err(LoadError::NotAScript { file_name: file_name.to_owned() }),
    };
    let act = match compile_act(text) {
        Ok(act) => act,
        Err(error) => return Err(LoadError::Compile { act_id, error }),
    };
    let result = acts.insert(act_id, act);
    proof {
        if result is Ok {
            assert(final(acts)@.drop_last() =~= old(acts)@);
        }
    }
    result
}

} // verus!
