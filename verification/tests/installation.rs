use yuri::host::Host;
use yuri::install::{Install, InstallStep};

fn run(mut plan: Install, outcomes: &[bool]) -> Vec<InstallStep> {
    let mut steps = vec![plan.current()];
    for done in outcomes {
        plan.report(*done);
        steps.push(plan.current());
    }
    steps
}

#[test]
fn new_directory_is_always_filled() {
    assert_eq!(
        run(Install::from_addon(), &[true, true]),
        vec![InstallStep::Unpack, InstallStep::Open, InstallStep::Open]
    );
    assert_eq!(
        run(Install::from_addon(), &[false, true]),
        vec![InstallStep::Unpack, InstallStep::Failed, InstallStep::Failed]
    );
}

#[test]
fn cache_is_filled_once() {
    assert_eq!(
        run(Install::from_addon_cached(), &[true, false, true]),
        vec![InstallStep::CreateDir, InstallStep::Look, InstallStep::Unpack, InstallStep::Open]
    );
    assert_eq!(
        run(Install::from_addon_cached(), &[true, true]),
        vec![InstallStep::CreateDir, InstallStep::Look, InstallStep::Open]
    );
}

#[test]
fn cache_that_cannot_be_made_or_filled() {
    assert_eq!(
        run(Install::from_addon_cached(), &[false]),
        vec![InstallStep::CreateDir, InstallStep::Failed]
    );
    assert_eq!(
        run(Install::from_addon_cached(), &[true, false, false]),
        vec![InstallStep::CreateDir, InstallStep::Look, InstallStep::Unpack, InstallStep::Failed]
    );
}

#[test]
fn host_keeps_memory_and_directory() {
    let mut host: Host<String, u32> = Host::new("voice".to_string());
    assert!(!host.has_memory());
    assert_eq!(host.state().next_fd, 10);
    host.attach(77);
    host.state().set_temp_ret(5);
    assert!(host.has_memory());
    assert_eq!(*host.get_memory(), 77);
    assert_eq!(host.voice_dir(), "voice");
    assert_eq!(host.state().get_temp_ret(), 5);
}
