use secretstash::browser::SpawnOutcome;
use secretstash::clipboard::{backend_at, copy_messages, copy_step, Backend, Clipboard, CopyStep};

#[test]
fn backends_in_order() {
    let names: Vec<&str> = (0..5).map(|i| backend_at(i).cmd()).collect();
    assert_eq!(names, vec!["pbcopy", "wl-copy", "xclip", "xsel", "clip.exe"]);
    assert_eq!(Backend::Xclip.copy_args(), vec!["-selection", "clipboard"]);
    assert_eq!(Backend::Xsel.copy_args(), vec!["--clipboard", "--input"]);
    assert!(Backend::Pbcopy.copy_args().is_empty());
}

#[test]
fn copy_steps() {
    assert_eq!(copy_step(0, SpawnOutcome::NotFound), CopyStep::Try(1));
    assert_eq!(copy_step(2, SpawnOutcome::Spawned), CopyStep::Copied(Clipboard(Backend::Xclip)));
    assert_eq!(copy_step(1, SpawnOutcome::Failed), CopyStep::Fail);
    assert_eq!(copy_step(4, SpawnOutcome::NotFound), CopyStep::NoClipboard);
}

#[test]
fn clear_command_uses_the_same_backend() {
    let (prog, args) = Clipboard(Backend::WlCopy).clear_command(30);
    assert_eq!(prog, "sh");
    assert_eq!(args, vec!["-c", "sleep 30; wl-copy --clear"]);
}

#[test]
fn copy_messages_mention_clearing() {
    assert_eq!(copy_messages("gh", 0), vec!["Copied 'gh' to clipboard."]);
    assert_eq!(
        copy_messages("gh", 10),
        vec!["Copied 'gh' to clipboard.", "Clipboard will be cleared in 10 second(s)."]
    );
}
