use sabi::ast::{Act, CharacterOperation, GuiChangeTarget, Scene};
use sabi::invoke::{
    ActChangeMessage, CharacterChangeMessage, CharacterSayMessage, InvokeContext, InvokeOperation,
    SceneChangeMessage,
};
use sabi::loader::{compile_act, load_act, CompileError};
use sabi::readiness::{Controller, ControllerReadyMessage, ControllersReady, SabiState, TriggerControllersMessage};
use sabi::runtime::{Acts, LoadError, NavigationError, VisualNovelState};

fn acts_of(scripts: &[(&str, &str)]) -> Acts {
    let mut acts = Acts::new();
    for (id, text) in scripts {
        acts.insert(id.to_string(), compile_act(text).unwrap()).unwrap();
    }
    acts
}

fn tick(state: &mut VisualNovelState) -> InvokeContext {
    let mut ctx = InvokeContext::new(false);
    state.run(&mut ctx).unwrap();
    ctx
}

#[test]
fn log_scenario_writes_its_text() {
    let mut state = VisualNovelState::new(acts_of(&[("main", "SCENE \"intro\" { log(\"hi\" + 1) }")])).unwrap();
    let ctx = tick(&mut state);
    assert_eq!(ctx.log_message, vec!["hi1".to_string()]);
    assert!(!state.is_blocking());
    assert_eq!(state.position(), 1);
}

#[test]
fn log_joins_its_parts_with_spaces() {
    let mut state = VisualNovelState::new(acts_of(&[("main", "SCENE \"s\" { log(\"a\", 1 + 2, \"b\" + \"c\") }")])).unwrap();
    let ctx = tick(&mut state);
    assert_eq!(ctx.log_message, vec!["a 3 bc".to_string()]);
}

#[test]
fn dialogue_scenario_emits_emotion_then_line_and_blocks() {
    let mut state =
        VisualNovelState::new(acts_of(&[("main", "SCENE \"s\" { Nayu [happy]: \"Hello \" + \"World\" log(1) }")])).unwrap();
    let ctx = tick(&mut state);
    assert_eq!(
        ctx.character_change_message,
        vec![CharacterChangeMessage {
            character: "Nayu".to_string(),
            operation: CharacterOperation::EmotionChange("happy".to_string()),
        }]
    );
    assert_eq!(
        ctx.character_say_message,
        vec![CharacterSayMessage { name: "Nayu".to_string(), message: "Hello World".to_string() }]
    );
    assert!(ctx.blocking);
    assert!(state.is_blocking());
    assert!(ctx.log_message.is_empty());
    assert_eq!(state.position(), 2);
    let idle = tick(&mut state);
    assert!(idle.log_message.is_empty());
    assert_eq!(state.position(), 2);
    state.clear_blocking();
    let resumed = tick(&mut state);
    assert_eq!(resumed.log_message, vec!["1".to_string()]);
}

#[test]
fn fade_in_scenario_blocks() {
    let mut state = VisualNovelState::new(acts_of(&[("main", "SCENE \"s\" { character Nayu fade in\nlog(1) }")])).unwrap();
    let ctx = tick(&mut state);
    assert_eq!(
        ctx.character_change_message,
        vec![CharacterChangeMessage {
            character: "Nayu".to_string(),
            operation: CharacterOperation::Spawn(None, true),
        }]
    );
    assert!(state.is_blocking());
    assert_eq!(state.position(), 1);
}

#[test]
fn appearing_without_fade_does_not_block() {
    let mut state = VisualNovelState::new(acts_of(&[("main", "SCENE \"s\" { character Nayu appears\ncharacter Nayu disappears }")])).unwrap();
    let ctx = tick(&mut state);
    assert_eq!(ctx.character_change_message.len(), 2);
    assert!(!state.is_blocking());
    assert!(!ctx.character_change_message[0].is_blocking());
}

#[test]
fn stage_messages_carry_evaluated_text() {
    let mut state = VisualNovelState::new(acts_of(&[("main", "SCENE \"s\" { background \"sky\" + 2\ngui namebox \"n\" + \"b\" }")])).unwrap();
    let ctx = tick(&mut state);
    assert_eq!(ctx.background_change_message.len(), 1);
    assert_eq!(ctx.background_change_message[0].background_id, "sky2");
    assert_eq!(ctx.gui_change_message.len(), 1);
    assert_eq!(ctx.gui_change_message[0].gui_target, GuiChangeTarget::NameBoxBackground);
    assert_eq!(ctx.gui_change_message[0].sprite_id, "nb");
}

#[test]
fn scene_change_stops_the_tick_and_switches_scene() {
    let mut state =
        VisualNovelState::new(acts_of(&[("main", "SCENE \"a\" { scene \"b\"\nlog(\"skipped\") }\nSCENE \"b\" { log(\"in b\") }")])).unwrap();
    let ctx = tick(&mut state);
    assert!(ctx.log_message.is_empty());
    assert_eq!(ctx.scene_change_message, vec![SceneChangeMessage { scene_id: "b".to_string() }]);
    state.handle_scene_change(&ctx.scene_change_message[0]).unwrap();
    assert_eq!(state.current_scene_id(), "b");
    assert_eq!(state.position(), 0);
    let next = tick(&mut state);
    assert_eq!(next.log_message, vec!["in b".to_string()]);
}

#[test]
fn unknown_scene_is_a_navigation_error_and_keeps_the_cursor() {
    let mut state = VisualNovelState::new(acts_of(&[("main", "SCENE \"a\" { log(1) log(2) }")])).unwrap();
    tick(&mut state);
    let before = state.position();
    let err = state.handle_scene_change(&SceneChangeMessage { scene_id: "nowhere".to_string() });
    assert_eq!(
        err,
        Err(NavigationError::SceneNotFound { scene_id: "nowhere".to_string(), act_id: "main".to_string() })
    );
    assert_eq!(state.current_scene_id(), "a");
    assert_eq!(state.current_act_id(), "main");
    assert_eq!(state.position(), before);
}

#[test]
fn act_change_starts_at_the_entrypoint() {
    let mut state = VisualNovelState::new(acts_of(&[
        ("one", "SCENE \"x\" { act \"two\" }"),
        ("two", "SCENE \"start\" { log(\"two\") }\nSCENE \"later\" { }"),
    ]))
    .unwrap();
    assert_eq!(state.current_act_id(), "one");
    let ctx = tick(&mut state);
    assert_eq!(ctx.act_change_message, vec![ActChangeMessage { act_id: "two".to_string() }]);
    state.handle_act_change(&ctx.act_change_message[0]).unwrap();
    assert_eq!(state.current_act_id(), "two");
    assert_eq!(state.current_scene_id(), "start");
    assert_eq!(tick(&mut state).log_message, vec!["two".to_string()]);
}

#[test]
fn act_with_missing_entrypoint_is_a_navigation_error() {
    let mut acts = acts_of(&[("first", "SCENE \"here\" { log(1) }")]);
    let broken = Act {
        scenes: vec![("other".to_string(), Scene { statements: vec![] })],
        entrypoint: "gone".to_string(),
    };
    acts.insert("second".to_string(), broken).unwrap();
    let mut state = VisualNovelState::new(acts).unwrap();
    let err = state.handle_act_change(&ActChangeMessage { act_id: "second".to_string() });
    assert_eq!(
        err,
        Err(NavigationError::EntrypointNotFound { act_id: "second".to_string(), scene_id: "gone".to_string() })
    );
    assert_eq!(state.current_act_id(), "first");
    assert_eq!(state.current_scene_id(), "here");
    assert_eq!(state.position(), 0);
}

#[test]
fn unknown_act_is_a_navigation_error() {
    let mut state = VisualNovelState::new(acts_of(&[("main", "SCENE \"a\" { }")])).unwrap();
    assert_eq!(
        state.handle_act_change(&ActChangeMessage { act_id: "missing".to_string() }),
        Err(NavigationError::ActNotFound { act_id: "missing".to_string() })
    );
    assert_eq!(state.current_act_id(), "main");
}

#[test]
fn evaluation_failure_is_reported_with_its_place() {
    let mut state = VisualNovelState::new(acts_of(&[("main", "SCENE \"a\" { log(1) background 9223372036854775807 + 1\nlog(3) }")])).unwrap();
    let mut ctx = InvokeContext::new(false);
    let err = state.run(&mut ctx).unwrap_err();
    assert_eq!(err.act_id, "main");
    assert_eq!(err.scene_id, "a");
    assert_eq!(err.position, 1);
    assert_eq!(err.error.operation, InvokeOperation::BackgroundChange);
    assert_eq!(ctx.log_message, vec!["1".to_string()]);
    assert!(ctx.background_change_message.is_empty());
    assert_eq!(state.position(), 2);
    assert_eq!(tick(&mut state).log_message, vec!["3".to_string()]);
}

#[test]
fn exhausted_scene_idles() {
    let mut state = VisualNovelState::new(acts_of(&[("main", "SCENE \"a\" { log(1) }")])).unwrap();
    tick(&mut state);
    let ctx = tick(&mut state);
    assert!(ctx.log_message.is_empty());
    assert_eq!(state.position(), 1);
}

#[test]
fn starting_act_has_the_least_id() {
    let state = VisualNovelState::new(acts_of(&[
        ("b", "SCENE \"b1\" { }"),
        ("ab", "SCENE \"ab1\" { }"),
        ("abc", "SCENE \"abc1\" { }"),
    ]))
    .unwrap();
    assert_eq!(state.current_act_id(), "ab");
    assert_eq!(state.current_scene_id(), "ab1");
}

#[test]
fn no_acts_is_a_startup_error() {
    assert!(matches!(VisualNovelState::new(Acts::new()), Err(LoadError::NoActs)));
}

#[test]
fn starting_act_without_entrypoint_is_a_startup_error() {
    let mut acts = Acts::new();
    let act = Act { scenes: vec![], entrypoint: "gone".to_string() };
    acts.insert("only".to_string(), act).unwrap();
    assert_eq!(
        VisualNovelState::new(acts).err(),
        Some(LoadError::EntrypointNotFound { act_id: "only".to_string(), scene_id: "gone".to_string() })
    );
}

#[test]
fn duplicate_act_fails_the_load() {
    let mut acts = Acts::new();
    load_act(&mut acts, "story.sabi", "SCENE \"a\" { }").unwrap();
    assert_eq!(
        load_act(&mut acts, "story.sabi", "SCENE \"b\" { }"),
        Err(LoadError::DuplicateAct { act_id: "story".to_string() })
    );
    assert_eq!(acts.len(), 1);
    assert_eq!(
        acts.insert("story".to_string(), compile_act("SCENE \"c\" { }").unwrap()),
        Err(LoadError::DuplicateAct { act_id: "story".to_string() })
    );
}

#[test]
fn load_rejects_other_files_and_bad_scripts() {
    let mut acts = Acts::new();
    assert_eq!(
        load_act(&mut acts, "readme.md", "SCENE \"a\" { }"),
        Err(LoadError::NotAScript { file_name: "readme.md".to_string() })
    );
    assert!(matches!(
        load_act(&mut acts, "bad.sabi", "SCENE"),
        Err(LoadError::Compile { error: CompileError::Syntax(_), .. })
    ));
    assert_eq!(acts.len(), 0);
    load_act(&mut acts, "good.sabi", "SCENE \"a\" { }").unwrap();
    assert!(acts.get(&"good".to_string()).is_some());
}

#[test]
fn runtime_starts_after_all_controllers_report() {
    let mut ready = ControllersReady::new();
    assert_eq!(ready.check_states(&vec![ControllerReadyMessage(Controller::Background)]), None);
    assert_eq!(ready.state, SabiState::WaitingForControllers);
    assert_eq!(
        ready.check_states(&vec![
            ControllerReadyMessage(Controller::Chat),
            ControllerReadyMessage(Controller::Character),
        ]),
        Some(TriggerControllersMessage)
    );
    assert_eq!(ready.state, SabiState::Running);
    assert_eq!(ready.check_states(&vec![ControllerReadyMessage(Controller::Chat)]), None);
}

#[test]
fn act_with_repeated_scene_ids_is_refused() {
    let mut acts = Acts::new();
    let act = Act {
        scenes: vec![
            ("a".to_string(), Scene { statements: vec![] }),
            ("a".to_string(), Scene { statements: vec![] }),
        ],
        entrypoint: "a".to_string(),
    };
    assert_eq!(
        acts.insert("twice".to_string(), act),
        Err(LoadError::DuplicateScene { act_id: "twice".to_string() })
    );
    assert_eq!(acts.len(), 0);
}

#[test]
fn load_reports_build_errors_of_scripts() {
    let mut acts = Acts::new();
    assert!(matches!(
        load_act(&mut acts, "dup.sabi", "SCENE \"a\" { }\nSCENE \"a\" { }"),
        Err(LoadError::Compile { act_id, error: CompileError::Build(_) }) if act_id == "dup"
    ));
    assert_eq!(acts.len(), 0);
}
