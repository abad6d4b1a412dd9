use rtt_console::attach::{AttachAction, BindOutcome, ChannelAttacher, BACKOFF_MS};

/// Drives an attacher over `n_regions` with a scripted bind, for at most
/// `max_steps` outcomes. Gives the regions tried, the sleeps taken, and the
/// region attached to, if any.
fn drive(n_regions: usize, max_steps: usize, mut bind: impl FnMut(usize, usize) -> BindOutcome) -> (Vec<usize>, Vec<u64>, Option<usize>) {
    let mut attacher = ChannelAttacher::new(n_regions);
    let mut tried = Vec::new();
    let mut sleeps = Vec::new();
    let mut action = attacher.start();
    for step in 0..max_steps {
        match action {
            AttachAction::Bind { region, backoff_ms } => {
                if backoff_ms > 0 {
                    sleeps.push(backoff_ms);
                }
                tried.push(region);
                action = attacher.on_outcome(bind(step, region));
            }
            AttachAction::Attached { region } => return (tried, sleeps, Some(region)),
            AttachAction::Idle => return (tried, sleeps, None),
        }
    }
    if let AttachAction::Attached { region } = action {
        return (tried, sleeps, Some(region));
    }
    (tried, sleeps, None)
}

#[test]
fn not_found_then_bound_attaches_without_sleeping() {
    let n = 3;
    let (tried, sleeps, attached) =
        drive(5, 100, |_, region| if region < n { BindOutcome::NotFound } else { BindOutcome::Bound });
    assert_eq!(tried, vec![0, 1, 2, 3]);
    assert!(sleeps.is_empty());
    assert_eq!(attached, Some(3));
}

#[test]
fn bound_at_first_candidate() {
    let (tried, sleeps, attached) = drive(2, 10, |_, _| BindOutcome::Bound);
    assert_eq!(tried, vec![0]);
    assert!(sleeps.is_empty());
    assert_eq!(attached, Some(0));
}

#[test]
fn never_found_keeps_cycling_without_sleeping() {
    let mut attacher = ChannelAttacher::new(3);
    let mut action = attacher.start();
    let mut tried = Vec::new();
    for _ in 0..1000 {
        match action {
            AttachAction::Bind { region, backoff_ms } => {
                assert_eq!(backoff_ms, 0);
                tried.push(region);
                action = attacher.on_outcome(BindOutcome::NotFound);
            }
            other => panic!("attacher stopped: {:?}", other),
        }
    }
    assert!(!attacher.is_attached());
    assert_eq!(&tried[..7], &[0, 1, 2, 0, 1, 2, 0]);
}

#[test]
fn two_transport_errors_then_success_sleep_twice() {
    let (tried, sleeps, attached) =
        drive(4, 100, |step, _| if step < 2 { BindOutcome::Failed } else { BindOutcome::Bound });
    assert_eq!(sleeps, vec![BACKOFF_MS, BACKOFF_MS]);
    assert_eq!(BACKOFF_MS, 300);
    assert_eq!(tried, vec![0, 1, 2]);
    assert_eq!(attached, Some(2));
}

#[test]
fn failure_on_last_candidate_wraps_to_first() {
    let mut attacher = ChannelAttacher::new(2);
    assert_eq!(attacher.start(), AttachAction::Bind { region: 0, backoff_ms: 0 });
    assert_eq!(attacher.on_outcome(BindOutcome::NotFound), AttachAction::Bind { region: 1, backoff_ms: 0 });
    assert_eq!(attacher.on_outcome(BindOutcome::Failed), AttachAction::Bind { region: 0, backoff_ms: 300 });
    assert_eq!(attacher.on_outcome(BindOutcome::Bound), AttachAction::Attached { region: 0 });
    assert!(attacher.is_attached());
}

#[test]
fn no_candidates_is_idle() {
    let attacher = ChannelAttacher::new(0);
    assert_eq!(attacher.start(), AttachAction::Idle);
    assert!(!attacher.is_attached());
}
