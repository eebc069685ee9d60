use yuri::engine::EngineStep;
use yuri::Engine;

fn run(mut e: Engine, outcomes: &[bool]) -> Vec<EngineStep> {
    let mut steps = vec![e.current()];
    for done in outcomes {
        e.report(*done);
        steps.push(e.current());
    }
    steps
}

#[test]
fn without_a_cache_nothing_is_saved() {
    assert_eq!(run(Engine::new(), &[true]), vec![EngineStep::Compile, EngineStep::Ready]);
    assert_eq!(run(Engine::new(), &[false]), vec![EngineStep::Compile, EngineStep::Failed]);
}

#[test]
fn first_start_compiles_and_saves() {
    for saved in [true, false] {
        assert_eq!(
            run(Engine::with_cache(), &[true, false, true, saved]),
            vec![
                EngineStep::CreateDir,
                EngineStep::Look,
                EngineStep::Compile,
                EngineStep::Save,
                EngineStep::Ready,
            ]
        );
    }
}

#[test]
fn later_starts_load() {
    assert_eq!(
        run(Engine::with_cache(), &[true, true, true]),
        vec![EngineStep::CreateDir, EngineStep::Look, EngineStep::Load, EngineStep::Ready]
    );
    assert_eq!(
        run(Engine::from_file(), &[true, true]),
        vec![EngineStep::Look, EngineStep::Load, EngineStep::Ready]
    );
}

#[test]
fn bad_cache_is_replaced() {
    for removed in [true, false] {
        assert_eq!(
            run(Engine::from_file(), &[true, false, removed, true, true, true]),
            vec![
                EngineStep::Look,
                EngineStep::Load,
                EngineStep::Discard,
                EngineStep::Compile,
                EngineStep::Save,
                EngineStep::Ready,
                EngineStep::Ready,
            ]
        );
    }
}

#[test]
fn failed_compilation_stays_failed() {
    assert_eq!(
        run(Engine::from_file(), &[false, false, true]),
        vec![EngineStep::Look, EngineStep::Compile, EngineStep::Failed, EngineStep::Failed]
    );
}

#[test]
fn directory_that_cannot_be_created_fails() {
    assert_eq!(
        run(Engine::with_cache(), &[false]),
        vec![EngineStep::CreateDir, EngineStep::Failed]
    );
}
