use u2fhid::callback::OnceSlot;
use u2fhid::devicemap::{DeviceMap, HotplugEvent};
use u2fhid::manager::{PlatformManager, RunLoopHandle};
use u2fhid::operation::{Action, Operation, Phase, Request, RETRY_INTERVAL_MS};
use u2fhid::util::IoError;
use std::cell::RefCell;
use std::rc::Rc;

#[test]
fn once_slot_delivers_first_result_only() {
    let mut slot = OnceSlot::new("handler");
    assert!(slot.is_pending());
    assert_eq!(slot.deliver(1), Some(("handler", 1)));
    assert!(!slot.is_pending());
    assert_eq!(slot.deliver(2), None);
    assert_eq!(slot.deliver(3), None);
}

#[test]
fn hotplug_add_then_remove_releases_handle() {
    let mut map: DeviceMap<&str> = DeviceMap::new();
    assert_eq!(map.process_event(HotplugEvent::Add(7, "dev7")), None);
    assert_eq!(map.process_event(HotplugEvent::Add(8, "dev8")), None);
    assert!(map.contains(7));
    assert_eq!(map.len(), 2);
    assert_eq!(map.process_event(HotplugEvent::Remove(7)), Some("dev7"));
    assert!(!map.contains(7));
    assert_eq!(map.process_event(HotplugEvent::Remove(7)), None);
    assert_eq!(map.len(), 1);
    assert_eq!(map.id_at(0), 8);
}

#[test]
fn hotplug_add_replaces_stale_entry() {
    let mut map: DeviceMap<&str> = DeviceMap::new();
    map.process_event(HotplugEvent::Add(1, "old"));
    assert_eq!(map.process_event(HotplugEvent::Add(1, "new")), Some("old"));
    assert_eq!(map.len(), 1);
    assert_eq!(map.find(1), Some(0));
    assert_eq!(*map.handle_at(0), "new");
}

#[test]
fn monitor_failure_is_delivered_at_once() {
    let (mut op, first) = Operation::<u32>::new(Request::Raw { cla: 0, cmd: 3, p1: 0, data: vec![] });
    assert!(matches!(first, Action::OpenMonitor));
    let a = op.monitor_opened(Err(IoError::Os(19)));
    assert!(matches!(a, Action::Deliver(Err(IoError::Os(19)))));
    assert!(*op.current_phase() == Phase::Done);
}

#[test]
fn first_success_wins() {
    let (mut op, _) = Operation::<char>::new(Request::Sign {
        challenge: vec![1; 32],
        application: vec![2; 32],
        key_handle: vec![3; 16],
    });
    assert!(matches!(op.monitor_opened(Ok(())), Action::CheckAlive));
    assert!(matches!(op.alive_checked(true), Action::DrainEvents));
    let events = vec![
        HotplugEvent::Add(1, 'A'),
        HotplugEvent::Add(2, 'B'),
        HotplugEvent::Add(3, 'C'),
    ];
    let (mut action, released) = op.events_drained(events);
    assert!(released.is_empty());
    let mut tried = Vec::new();
    let delivered = loop {
        match action {
            Action::Exchange(i) => {
                let dev = *op.device(i);
                tried.push(dev);
                let res = if dev == 'B' {
                    Ok(vec![0xbb])
                } else {
                    Err(IoError::Other("refused".to_string()))
                };
                action = op.exchanged(res);
            }
            Action::Deliver(r) => break r,
            _ => panic!("unexpected action"),
        }
    };
    assert_eq!(delivered, Ok(vec![0xbb]));
    match op.request_ref() {
        Request::Sign { key_handle, .. } => assert_eq!(key_handle, &vec![3u8; 16]),
        _ => panic!("request changed"),
    }
    assert_eq!(tried, vec!['A', 'B']);
}

/// Drives an operation against a simulated clock: the operation is alive
/// while less than `timeout` ms have passed, sleeping advances the clock,
/// and each exchange with a device fails. Returns the delivered results, the
/// number of passes and the clock at delivery.
fn drive(timeout: u64, devices: Vec<HotplugEvent<u32>>) -> (Vec<Result<Vec<u8>, IoError>>, u32, u64) {
    let request = Request::Register { challenge: vec![0x01; 32], application: vec![0x02; 32] };
    let (mut op, mut action) = Operation::<u32>::new(request);
    let mut now = 0u64;
    let mut passes = 0u32;
    let mut pending = Some(devices);
    let mut delivered = Vec::new();
    loop {
        action = match action {
            Action::OpenMonitor => op.monitor_opened(Ok(())),
            Action::CheckAlive => op.alive_checked(now < timeout),
            Action::DrainEvents => {
                passes += 1;
                op.events_drained(pending.take().unwrap_or_default()).0
            }
            Action::Exchange(_) => op.exchanged(Err(IoError::Other("no".to_string()))),
            Action::Sleep(ms) => {
                now += ms;
                op.slept()
            }
            Action::Deliver(r) => {
                delivered.push(r);
                break;
            }
        };
    }
    (delivered, passes, now)
}

#[test]
fn register_with_failing_device_times_out_once() {
    let (delivered, passes, now) = drive(500, vec![HotplugEvent::Add(1, 0x01)]);
    assert_eq!(delivered.len(), 1);
    assert_eq!(delivered[0], Err(IoError::Other("cancelled or timed out".to_string())));
    assert!(passes >= 4);
    assert!(now >= 500);
}

#[test]
fn empty_registry_retries_until_deadline() {
    let (delivered, passes, now) = drive(300, vec![]);
    assert_eq!(delivered, vec![Err(IoError::Other("cancelled or timed out".to_string()))]);
    assert_eq!(passes, 3);
    assert!(now >= 300 && now <= 300 + RETRY_INTERVAL_MS);
}

struct FakeLoop {
    log: Rc<RefCell<Vec<&'static str>>>,
    name: &'static str,
}

impl RunLoopHandle for FakeLoop {
    type Joined = &'static str;

    fn joined_by(&self, j: &'static str) -> bool {
        j == self.name
    }

    fn cancel(self) -> &'static str {
        self.log.borrow_mut().push(self.name);
        self.name
    }
}

#[test]
fn manager_cancels_previous_before_next() {
    let log = Rc::new(RefCell::new(Vec::new()));
    let mut mgr = PlatformManager::new();
    assert!(!mgr.is_active());
    assert_eq!(mgr.cancel(), None);
    mgr.install(FakeLoop { log: log.clone(), name: "a" });
    assert!(mgr.is_active());
    assert_eq!(mgr.cancel(), Some("a"));
    assert!(!mgr.is_active());
    mgr.install(FakeLoop { log: log.clone(), name: "b" });
    assert_eq!(mgr.cancel(), Some("b"));
    assert_eq!(mgr.cancel(), None);
    assert_eq!(*log.borrow(), vec!["a", "b"]);
}

#[test]
fn drained_events_hand_back_removed_handles() {
    let (mut op, _) = Operation::<u32>::new(Request::Register { challenge: vec![1], application: vec![2] });
    op.monitor_opened(Ok(()));
    op.alive_checked(true);
    let events = vec![
        HotplugEvent::Add(5, 50),
        HotplugEvent::Add(6, 60),
        HotplugEvent::Remove(5),
        HotplugEvent::Remove(9),
        HotplugEvent::Add(6, 61),
    ];
    let (action, released) = op.events_drained(events);
    assert_eq!(released, vec![50, 60]);
    assert!(matches!(action, Action::Exchange(0)));
    assert_eq!(op.device_map().len(), 1);
    assert_eq!(*op.device(0), 61);
    assert!(matches!(op.exchanged(Err(IoError::Os(5))), Action::Sleep(RETRY_INTERVAL_MS)));
    assert!(matches!(op.slept(), Action::CheckAlive));
    let end = op.alive_checked(false);
    assert!(matches!(end, Action::Deliver(Err(IoError::Other(ref m))) if m == "cancelled or timed out"));
}
