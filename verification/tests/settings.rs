use futures_lite::future::{block_on, poll_once};
use opendal_ext::config::{OpenDALConfig, Scheme};
use opendal_ext::error::{ErrorKind, VfsError};
use opendal_ext::service::Service;
use opendal_ext::table::Table;
use opendal_ext::throttle::{rate, SizedField};
use opendal_ext::{RetrySetting, Throttle};

fn pairs(list: &[(&str, &str)]) -> Vec<(String, String)> {
    list.iter()
        .map(|(k, v)| (k.to_string(), v.to_string()))
        .collect()
}

fn memory() -> Scheme {
    Scheme::new(Service::Memory, Table::new())
}

#[test]
fn retry_settings_give_the_number_of_times() {
    assert_eq!(RetrySetting::Disabled.get_setting(5), 0);
    assert_eq!(RetrySetting::Default.get_setting(5), 5);
    assert_eq!(RetrySetting::Count(3).get_setting(5), 3);
    assert_eq!(RetrySetting::default(), RetrySetting::Default);
}

#[test]
fn retry_settings_are_read() {
    for (text, expected) in [
        ("false", RetrySetting::Disabled),
        ("off", RetrySetting::Disabled),
        ("OFF", RetrySetting::Disabled),
        ("False", RetrySetting::Disabled),
        ("default", RetrySetting::Default),
        ("DeFault", RetrySetting::Default),
        ("0", RetrySetting::Count(0)),
        ("+12", RetrySetting::Count(12)),
    ] {
        assert_eq!(RetrySetting::from_str(text).unwrap(), expected);
    }
}

#[test]
fn retry_settings_that_are_no_number_are_refused() {
    let e = RetrySetting::from_str("Never").unwrap_err();
    assert_eq!(e.kind, ErrorKind::ConfigInvalid);
    assert_eq!(
        e.message,
        "Parsing retry value `never` failed, the value must be a valid integer."
    );
    assert_eq!(e.context, pairs(&[("value", "never")]));
    assert_eq!(
        e.source,
        Some("never".parse::<usize>().unwrap_err().to_string())
    );
    for text in ["", "99999999999999999999999", "-1"] {
        let e = RetrySetting::from_str(text).unwrap_err();
        assert_eq!(
            e.source,
            Some(text.parse::<usize>().unwrap_err().to_string())
        );
    }
    // A letter that is not ASCII is brought into lower case too.
    let e = RetrySetting::from_str("\u{c9}").unwrap_err();
    assert_eq!(e.context, pairs(&[("value", "\u{e9}")]));
    assert!(RetrySetting::from_lowercase("OFF").is_err());
}

#[test]
fn retry_settings_survive_being_written_and_read() {
    for setting in [
        RetrySetting::Disabled,
        RetrySetting::Default,
        RetrySetting::Count(0),
        RetrySetting::Count(17),
        RetrySetting::Count(usize::MAX),
    ] {
        assert_eq!(
            RetrySetting::from_str(&setting.to_string()).unwrap(),
            setting
        );
    }
    assert_eq!(RetrySetting::Disabled.to_string(), "off");
    assert_eq!(RetrySetting::Default.to_string(), "default");
    assert_eq!(RetrySetting::Count(17).to_string(), "17");
}

#[test]
fn throttles_are_read() {
    let t = Throttle::from_str("10kiB,10MB").unwrap();
    assert_eq!(t.bandwidth, 10 * 1024);
    assert_eq!(t.burst, 10_000_000);
    let t = Throttle::from_str(" 1 KiB ,\t2,garbage").unwrap();
    assert_eq!((t.bandwidth, t.burst), (1024, 2));
    let t = Throttle::default();
    assert_eq!((t.bandwidth, t.burst), (u32::MAX, u32::MAX));
    let t = t.bandwidth(3).burst(4);
    assert_eq!((t.bandwidth, t.burst), (3, 4));
}

#[test]
fn throttles_that_cannot_be_read_are_refused() {
    let e = Throttle::from_str("10kiB").unwrap_err();
    assert_eq!(e.kind, ErrorKind::ConfigInvalid);
    assert_eq!(e.message, "No burst given.");
    assert_eq!(e.context, vec![]);
    assert_eq!(e.source, None);

    let e = Throttle::from_str(" x ,1").unwrap_err();
    assert_eq!(e.message, "Parsing ByteSize failed");
    assert_eq!(e.context, pairs(&[("input", " x ")]));
    assert_eq!(
        e.source,
        Some("x".parse::<bytesize::ByteSize>().unwrap_err())
    );

    let e = Throttle::from_str("1,").unwrap_err();
    assert_eq!(e.context, pairs(&[("input", "")]));

    let e = Throttle::from_str("1,4GiB").unwrap_err();
    assert_eq!(e.message, "Parsing ByteSize failed");
    assert_eq!(e.context, vec![]);
    assert_eq!(
        e.source,
        Some(u32::try_from(1u64 << 32).unwrap_err().to_string())
    );
    assert!(Throttle::from_str("1,4294967295").is_ok());
}

#[test]
fn rates_come_from_sizes() {
    let field = |size| SizedField {
        text: "f".to_string(),
        size,
    };
    assert_eq!(rate(field(Ok(7))).unwrap(), 7);
    assert!(rate(field(Ok(1 << 32))).is_err());
    assert_eq!(
        rate(field(Err("no".to_string()))).unwrap_err().source,
        Some("no".to_string())
    );
    let t = Throttle::from_fields(field(Ok(1)), Some(field(Ok(2)))).unwrap();
    assert_eq!((t.bandwidth, t.burst), (1, 2));
    assert!(Throttle::from_fields(field(Ok(1)), None).is_err());
}

#[test]
fn small_throttles_survive_being_written_and_read() {
    let t = Throttle::default().bandwidth(1000).burst(1);
    assert_eq!(t.to_string(), "1000 B,1 B");
    assert_eq!(Throttle::from_str(&t.to_string()).unwrap(), t);
    // Larger ones are rounded.
    let t = Throttle::default().bandwidth(1025).burst(1);
    assert_eq!(t.to_string(), "1.0 KiB,1 B");
    assert_eq!(Throttle::from_str(&t.to_string()).unwrap().bandwidth, 1024);
}

#[test]
fn settings_are_taken_from_pairs() {
    let config = OpenDALConfig::from_iter(
        "memory",
        pairs(&[
            ("connections", "1"),
            ("connections", "8"),
            ("throttle", "10kiB,10MB"),
            ("retry", "OFF"),
            ("root", "/tmp"),
        ]),
    );
    assert_eq!(config.connections, Some(8));
    assert_eq!(config.throttle.unwrap().bandwidth, 10 * 1024);
    assert_eq!(config.retry, RetrySetting::Disabled);
    assert_eq!(config.scheme().name, "memory");
    assert_eq!(config.scheme().options.pairs(), pairs(&[("root", "/tmp")]));
}

#[test]
fn settings_that_are_not_valid_are_skipped() {
    let config = OpenDALConfig::from_iter(
        "fs",
        pairs(&[
            ("max_connections", "4294967296"),
            ("throttle", "1"),
            ("retry", "often"),
        ]),
    );
    assert_eq!(config.connections, None);
    assert_eq!(config.throttle, None);
    assert_eq!(config.retry, RetrySetting::Default);
    assert_eq!(config.scheme().options.len(), 0);
}

#[test]
fn connections_have_two_names() {
    let config = OpenDALConfig::from_iter("fs", pairs(&[("max_connections", "3")]));
    assert_eq!(config.connections, Some(3));
    assert_eq!(config.scheme().options.len(), 0);
    let config = OpenDALConfig::from_iter(
        "fs",
        pairs(&[("max_connections", "3"), ("connections", "x")]),
    );
    assert_eq!(config.connections, None);
    assert_eq!(
        config.scheme().options.pairs(),
        pairs(&[("max_connections", "3")])
    );
}

#[test]
fn a_new_config_has_defaults() {
    let config = OpenDALConfig::new(&memory());
    assert_eq!(config.connections, None);
    assert_eq!(config.throttle, None);
    assert_eq!(config.retry, RetrySetting::Default);
    assert_eq!(config.scheme().name, "memory");
    let config = OpenDALConfig::from(memory())
        .connections(Some(2))
        .retry(RetrySetting::Count(1))
        .throttle(Some(Throttle::default()));
    assert_eq!(config.connections, Some(2));
    assert_eq!(config.retry, RetrySetting::Count(1));
    assert!(config.is_usable());
    assert!(!config
        .throttle(Some(Throttle::default().burst(0)))
        .is_usable());
}

#[test]
fn services_have_names() {
    assert_eq!(Service::B2.name(), "b2");
    assert_eq!(Service::YandexDisk.name(), "yandex-disk");
    assert_eq!(Service::Memory.name(), opendal::services::MEMORY_SCHEME);
    assert_eq!(Service::Fs.name(), opendal::services::FS_SCHEME);
}

#[test]
fn an_operator_is_built_for_the_service() {
    let op = OpenDALConfig::from(memory()).operator().unwrap();
    assert_eq!(op.info().scheme(), "memory");
    block_on(op.write("a.txt", "hello")).unwrap();
    assert_eq!(block_on(op.read("a.txt")).unwrap().to_vec(), b"hello");
    let err = OpenDALConfig::from_iter("no-such-service", vec![])
        .operator()
        .unwrap_err();
    match err {
        VfsError::Backend(e) => assert_eq!(e.kind(), opendal::ErrorKind::Unsupported),
        VfsError::Raised(_) => panic!("the backend refuses the service"),
    }
}

#[test]
fn an_operator_is_built_with_the_options() {
    let config = OpenDALConfig::from_iter("memory", pairs(&[("root", "/somewhere")]));
    assert_eq!(config.operator().unwrap().info().root(), "/somewhere/");
}

#[test]
fn an_operator_has_the_layers_it_is_asked_for() {
    let plain = OpenDALConfig::from(memory()).operator().unwrap();
    let debug = format!("{plain:?}");
    assert!(debug.contains("RetryAccessor"));
    assert!(!debug.contains("ThrottleAccessor"));

    // No permit is ever free, so nothing comes to an end.
    let none = OpenDALConfig::from(memory())
        .connections(Some(0))
        .operator()
        .unwrap();
    assert!(block_on(poll_once(none.write("a", "x"))).is_none());
    let one = OpenDALConfig::from(memory())
        .connections(Some(1))
        .operator()
        .unwrap();
    block_on(one.write("a", "x")).unwrap();

    // More bytes than may pass at once are refused.
    let slow = OpenDALConfig::from(memory())
        .retry(RetrySetting::Disabled)
        .throttle(Some(Throttle::default().bandwidth(1).burst(3)))
        .operator()
        .unwrap();
    let err = block_on(slow.write("a", "more than three")).unwrap_err();
    assert_eq!(err.kind(), opendal::ErrorKind::RateLimited);
    block_on(slow.write("a", "abc")).unwrap();
    assert!(format!("{slow:?}").contains("ThrottleAccessor"));
}

#[test]
fn an_error_is_handed_on_whatever_the_rates() {
    let config = OpenDALConfig::new(&memory())
        .throttle(Some(Throttle::default().bandwidth(0)));
    assert!(!config.is_usable());
    let missing = opendal::Error::new(opendal::ErrorKind::Unsupported, "no such service");
    assert!(matches!(
        config.layered(Err(VfsError::Backend(missing))),
        Err(VfsError::Backend(_))
    ));
}

#[test]
fn settings_are_read_in_upper_case_and_to_the_byte() {
    let config = OpenDALConfig::from_iter(
        "memory",
        pairs(&[("retry", "OFF"), ("throttle", "4294967295 B,7 B")]),
    );
    assert_eq!(config.retry, RetrySetting::Disabled);
    assert_eq!(config.throttle, Some(Throttle::default().burst(7)));
}

#[test]
fn an_error_comes_from_the_service_that_was_asked_for() {
    for name in ["no-such-service", "nor-this-one"] {
        let err = Scheme::dynamic(name, Table::new()).operator().unwrap_err();
        match err {
            VfsError::Backend(e) => assert!(e.to_string().contains(name)),
            VfsError::Raised(_) => panic!("the backend refuses the service"),
        }
    }
}
