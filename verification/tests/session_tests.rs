use f1_data::Driver;
use f1_data::DriverSession;
use f1_data::DrsStatus;
use f1_data::Session;
use f1_data::SessionType;

fn driver(code: &str, number: u32) -> DriverSession {
    DriverSession {
        driver: Driver {
            code: String::from(code),
            name: String::from("Driver Name"),
            number,
            team: String::from("Team"),
            team_color: String::from("#FF0000"),
        },
        laps: vec![],
    }
}

fn session() -> Session {
    Session {
        year: 2024,
        circuit: String::from("Circuit de Monaco"),
        circuit_short: String::from("Monaco"),
        session_type: SessionType::Race,
        date: 1_716_700_000,
        drivers: vec![driver("VER", 1), driver("HAM", 44), driver("LEC", 16)],
    }
}

#[test]
fn session_type_labels() {
    assert_eq!(SessionType::Practice1.as_str(), "FP1");
    assert_eq!(SessionType::Practice2.as_str(), "FP2");
    assert_eq!(SessionType::Practice3.as_str(), "FP3");
    assert_eq!(SessionType::Qualifying.as_str(), "Q");
    assert_eq!(SessionType::Sprint.as_str(), "Sprint");
    assert_eq!(SessionType::Race.as_str(), "Race");
}

#[test]
fn get_driver_finds_exact_code() {
    let s = session();
    let d = s.get_driver("HAM").unwrap();
    assert_eq!(d.driver.number, 44);
}

#[test]
fn get_driver_misses_unknown_or_differently_cased_code() {
    let s = session();
    assert!(s.get_driver("ALO").is_none());
    assert!(s.get_driver("ham").is_none());
}

#[test]
fn driver_codes_in_storage_order() {
    let s = session();
    assert_eq!(s.driver_codes(), vec!["VER", "HAM", "LEC"]);
}

#[test]
fn drs_default_is_off() {
    assert_eq!(DrsStatus::default(), DrsStatus::Off);
}
