use u2f_touch_detector::config::ConfigMap;
use u2f_touch_detector::monitor::Monitor;
use u2f_touch_detector::notify::{Config, DeviceConfig};
use u2f_touch_detector::socket::{token, Presence};

fn paths(v: &[&str]) -> Vec<String> {
    v.iter().map(|s| s.to_string()).collect()
}

#[test]
fn reconciliation() {
    let mut monitor = Monitor::new();
    let mut started = 0;
    // First tick: the device is attached.
    let spawn = monitor.reconcile(&paths(&["/dev/hidraw1"]));
    assert_eq!(spawn, paths(&["/dev/hidraw1"]));
    assert!(monitor.record(spawn[0].clone(), 1));
    started += 1;
    // Unplugged: the task's read fails and it ends.
    monitor.task_finished(1);
    // Second tick: nothing attached.
    assert!(monitor.reconcile(&paths(&[])).is_empty());
    assert!(!monitor.has_task(&"/dev/hidraw1".to_string()));
    // Third tick: attached again, a fresh task.
    let spawn = monitor.reconcile(&paths(&["/dev/hidraw1"]));
    assert_eq!(spawn, paths(&["/dev/hidraw1"]));
    assert!(monitor.record(spawn[0].clone(), 2));
    started += 1;
    assert_eq!(started, 2);
}

#[test]
fn running_task_is_not_duplicated() {
    let mut monitor = Monitor::new();
    let spawn = monitor.reconcile(&paths(&["/a", "/b", "/a"]));
    assert_eq!(spawn, paths(&["/a", "/b"]));
    assert!(monitor.record("/a".to_string(), 1));
    assert!(monitor.record("/b".to_string(), 2));
    assert!(!monitor.record("/a".to_string(), 3));
    // Still running: no new task, even when listed again.
    assert!(monitor.reconcile(&paths(&["/a", "/b"])).is_empty());
    // One ends while attached: it is started again.
    monitor.task_finished(2);
    assert_eq!(monitor.reconcile(&paths(&["/a", "/b"])), paths(&["/b"]));
}

#[test]
fn socket_tokens() {
    assert_eq!(token(true), "U2F_1");
    assert_eq!(token(false), "U2F_0");
}

#[test]
fn presence_over_devices() {
    let mut p = Presence::new();
    assert!(p.is_empty());
    assert_eq!(p.update(&"A".to_string(), true), Some(true));
    assert_eq!(p.update(&"B".to_string(), true), None);
    assert_eq!(p.update(&"A".to_string(), false), None);
    assert_eq!(p.update(&"B".to_string(), false), Some(false));
    assert!(p.is_empty());
}

fn config() -> Config {
    Config {
        enable: true,
        heading: "U2F Touch Required".to_string(),
        message: None,
        image: Some("/img/key.png".to_string()),
        devices: ConfigMap {
            inner: vec![
                (
                    "111".to_string(),
                    DeviceConfig {
                        heading: Some("Work key".to_string()),
                        message: Some("Touch the work key".to_string()),
                        image: None,
                    },
                ),
                (
                    "222".to_string(),
                    DeviceConfig { heading: None, message: None, image: Some("/img/b.png".to_string()) },
                ),
            ],
        },
    }
}

#[test]
fn notice_uses_device_overrides() {
    let n = config().notice(&"111".to_string());
    assert_eq!(n.summary, "Work key");
    assert_eq!(n.body, "Touch the work key");
    assert_eq!(n.image, Some("/img/key.png".to_string()));
}

#[test]
fn notice_falls_back_to_general_settings() {
    let n = config().notice(&"222".to_string());
    assert_eq!(n.summary, "U2F Touch Required");
    assert_eq!(n.body, "Device 222");
    assert_eq!(n.image, Some("/img/b.png".to_string()));
    let n = config().notice(&"333".to_string());
    assert_eq!(n.body, "Device 333");
    assert_eq!(n.image, Some("/img/key.png".to_string()));
}

#[test]
fn notice_general_message() {
    let mut c = config();
    c.message = Some("Touch it".to_string());
    assert_eq!(c.notice(&"333".to_string()).body, "Touch it");
    assert_eq!(c.notice(&"111".to_string()).body, "Touch the work key");
}

#[test]
fn config_map_first_match() {
    let m = ConfigMap { inner: vec![("k".to_string(), 1u8), ("k".to_string(), 2u8), ("j".to_string(), 3u8)] };
    assert_eq!(m.get(&"k".to_string()), Some(&1));
    assert_eq!(m.get(&"j".to_string()), Some(&3));
    assert_eq!(m.get(&"x".to_string()), None);
}
