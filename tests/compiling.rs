use sabi::ast::{Act, CharacterOperation, CodeStatement, Dialogue, GuiChangeTarget, StageCommand, Statement};
use sabi::builder::BuildError;
use sabi::expr::Expr;
use sabi::grammar::{SabiParser, SyntaxError};
use sabi::loader::{compile_act, script_act_id, CompileError};
use sabi::tree::Rule;

fn statements_of<'a>(act: &'a Act, scene: &str) -> &'a Vec<Statement> {
    &act.get_scene(&scene.to_string()).unwrap().statements
}

fn count(act: &Act) -> usize {
    act.scenes.iter().map(|(_, s)| s.statements.len()).sum()
}

#[test]
fn log_statement_compiles() {
    let act = compile_act("SCENE \"intro\" { log(\"hi\" + 1) }").unwrap();
    assert_eq!(act.entrypoint, "intro");
    let stmts = statements_of(&act, "intro");
    assert_eq!(stmts.len(), 1);
    match &stmts[0] {
        Statement::Code(CodeStatement::Log { exprs }) => {
            assert_eq!(exprs.len(), 1);
            assert_eq!(exprs[0].evaluate_into_string(), Ok("hi1".to_string()));
        },
        other => panic!("not a log statement: {:?}", other),
    }
}

#[test]
fn dialogue_with_emotion_compiles() {
    let act = compile_act("SCENE \"s\" {\n  Nayu [happy]: \"Hello \" + \"World\"\n}").unwrap();
    let stmts = statements_of(&act, "s");
    assert_eq!(stmts.len(), 2);
    assert_eq!(
        stmts[0],
        Statement::Stage(StageCommand::CharacterChange {
            character: "Nayu".to_string(),
            operation: CharacterOperation::EmotionChange("happy".to_string()),
        })
    );
    match &stmts[1] {
        Statement::Dialogue(Dialogue { character, dialogue }) => {
            assert_eq!(character, "Nayu");
            assert_eq!(dialogue.evaluate_into_string(), Ok("Hello World".to_string()));
        },
        other => panic!("not a dialogue: {:?}", other),
    }
}

#[test]
fn dialogue_body_interleaves_text_and_commands() {
    let src = "SCENE \"s\" { Nayu: \"one\" {background \"night\"} \"two\" }";
    let act = compile_act(src).unwrap();
    let stmts = statements_of(&act, "s");
    assert_eq!(stmts.len(), 3);
    assert!(matches!(&stmts[0], Statement::Dialogue(d) if d.dialogue == Expr::String("one".to_string())));
    assert_eq!(
        stmts[1],
        Statement::Stage(StageCommand::BackgroundChange {
            background_expr: Box::new(Expr::String("night".to_string()))
        })
    );
    assert!(matches!(&stmts[2], Statement::Dialogue(d) if d.dialogue == Expr::String("two".to_string())));
}

#[test]
fn character_verbs_compile() {
    let src = "SCENE \"s\" {\ncharacter Nayu fade in\ncharacter Nayu appears [sad]\ncharacter Nayu disappears\ncharacter Nayu fade out\n}";
    let act = compile_act(src).unwrap();
    let ops: Vec<CharacterOperation> = statements_of(&act, "s")
        .iter()
        .map(|s| match s {
            Statement::Stage(StageCommand::CharacterChange { character, operation }) => {
                assert_eq!(character, "Nayu");
                operation.clone()
            },
            other => panic!("not a character change: {:?}", other),
        })
        .collect();
    assert_eq!(
        ops,
        vec![
            CharacterOperation::Spawn(None, true),
            CharacterOperation::Spawn(Some("sad".to_string()), false),
            CharacterOperation::Despawn(false),
            CharacterOperation::Despawn(true),
        ]
    );
}

#[test]
fn stage_commands_compile() {
    let src = "SCENE \"a\" {\nbackground \"bg\" + 2\ngui textbox \"box\"\ngui namebox \"name\"\nscene \"b\"\nact \"other\"\n}\nSCENE \"b\" { }";
    let act = compile_act(src).unwrap();
    assert_eq!(act.scenes.len(), 2);
    assert_eq!(act.entrypoint, "a");
    let stmts = statements_of(&act, "a");
    assert_eq!(stmts.len(), 5);
    assert!(matches!(&stmts[0], Statement::Stage(StageCommand::BackgroundChange { .. })));
    assert!(matches!(
        &stmts[1],
        Statement::Stage(StageCommand::GUIChange { gui_target: GuiChangeTarget::TextBoxBackground, .. })
    ));
    assert!(matches!(
        &stmts[2],
        Statement::Stage(StageCommand::GUIChange { gui_target: GuiChangeTarget::NameBoxBackground, .. })
    ));
    assert_eq!(
        stmts[3],
        Statement::Stage(StageCommand::SceneChange { scene_expr: Box::new(Expr::String("b".to_string())) })
    );
    assert_eq!(
        stmts[4],
        Statement::Stage(StageCommand::ActChange { act_expr: Box::new(Expr::String("other".to_string())) })
    );
    assert!(statements_of(&act, "b").is_empty());
}

#[test]
fn log_takes_several_expressions_and_parentheses() {
    let act = compile_act("SCENE \"s\" { log(1, (2 + 3) + \"x\", \"y\") }").unwrap();
    match &statements_of(&act, "s")[0] {
        Statement::Code(CodeStatement::Log { exprs }) => {
            let texts: Vec<String> = exprs.iter().map(|e| e.evaluate_into_string().unwrap()).collect();
            assert_eq!(texts, vec!["1", "5x", "y"]);
        },
        other => panic!("not a log statement: {:?}", other),
    }
}

#[test]
fn repeated_compiles_give_the_same_statement_count() {
    let src = "SCENE \"a\" { Nayu: \"x\" \"y\" {scene \"b\"} log(1) }\nSCENE \"b\" { character Bo appears }";
    let first = compile_act(src).unwrap();
    let second = compile_act(src).unwrap();
    assert_eq!(count(&first), 5);
    assert_eq!(count(&first), count(&second));
    assert_eq!(first, second);
}

#[test]
fn duplicate_scene_fails_the_build() {
    let src = "SCENE \"a\" { }\nSCENE \"b\" { }\nSCENE \"a\" { log(1) }";
    assert_eq!(
        compile_act(src),
        Err(CompileError::Build(BuildError::DuplicateScene { scene_id: "a".to_string() }))
    );
}

#[test]
fn unknown_gui_element_fails_the_build() {
    assert_eq!(
        compile_act("SCENE \"a\" { gui sidebar \"x\" }"),
        Err(CompileError::Build(BuildError::UnknownGuiElement { name: "sidebar".to_string() }))
    );
}

#[test]
fn unknown_character_verb_fails_the_build() {
    assert_eq!(
        compile_act("SCENE \"a\" { character Nayu waves }"),
        Err(CompileError::Build(BuildError::UnknownCharacterAction { action: "waves".to_string() }))
    );
}

#[test]
fn number_too_large_fails_the_build() {
    assert_eq!(
        compile_act("SCENE \"a\" { log(9223372036854775808) }"),
        Err(CompileError::Build(BuildError::InvalidNumber { text: "9223372036854775808".to_string() }))
    );
    assert!(compile_act("SCENE \"a\" { log(9223372036854775807) }").is_ok());
}

#[test]
fn script_without_scenes_fails_the_build() {
    assert_eq!(compile_act("  \n "), Err(CompileError::Build(BuildError::NoScenes)));
}

#[test]
fn syntax_errors_give_their_position() {
    assert_eq!(compile_act("SCENE \"a\" { log(1 }"), Err(CompileError::Syntax(SyntaxError { position: 12 })));
    assert_eq!(compile_act("hello"), Err(CompileError::Syntax(SyntaxError { position: 0 })));
    assert_eq!(compile_act("SCENE \"a\""), Err(CompileError::Syntax(SyntaxError { position: 9 })));
}

#[test]
fn parse_tree_has_the_builder_shape() {
    let tree = SabiParser::parse("SCENE \"a\" { log(\"x\" + 2) }").unwrap();
    assert_eq!(tree.as_rule(), Rule::Act);
    assert_eq!(tree.inner.len(), 2);
    assert_eq!(tree.inner[1].rule, Rule::Eoi);
    let scene = &tree.inner[0];
    assert_eq!(scene.rule, Rule::Scene);
    assert_eq!(scene.inner[0].rule, Rule::SceneId);
    assert_eq!(scene.inner[0].as_str(), "a");
    let log = &scene.inner[1].inner[0];
    assert_eq!(log.rule, Rule::Log);
    let expr = &log.inner[0];
    let rules: Vec<Rule> = expr.inner.iter().map(|p| p.rule).collect();
    assert_eq!(rules, vec![Rule::Str, Rule::Add, Rule::Number]);
    assert_eq!(expr.inner[0].as_str(), "\"x\"");
    assert_eq!(expr.inner[0].inner[0].as_str(), "x");
    assert_eq!(expr.as_str(), "\"x\" + 2");
}

#[test]
fn act_ids_come_from_script_file_names() {
    assert_eq!(script_act_id("chapter1.sabi"), Some("chapter1".to_string()));
    assert_eq!(script_act_id("a.b.sabi"), Some("a.b".to_string()));
    assert_eq!(script_act_id(".sabi"), None);
    assert_eq!(script_act_id("notes.txt"), None);
    assert_eq!(script_act_id("sabi"), None);
}
