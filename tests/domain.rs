use rush_booking::domain::booking::{
    is_valid_general_name, GeneralName, HostCategory, NewHost, NewRoom,
};
use rush_booking::domain::customer::CustomerEmail;
use rush_booking::domain::sealed_trait::{call_to_sealed_meothod, ExportedType, SealedTrait};
use rush_booking::domain::state::Session;

#[test]
fn invalid_hotel_category_is_rejected() {
    let host_category = "prison";

    assert!(HostCategory::parse(host_category).is_err());
}

#[test]
fn valid_hotel_category_is_accepted() {
    let host_category = "hotel";
    assert!(matches!(
        HostCategory::parse(host_category).unwrap(),
        HostCategory::Hotel
    ));

    let host_category = "guest_house";
    assert!(matches!(
        HostCategory::parse(host_category).unwrap(),
        HostCategory::GuestHouse
    ));
}

#[test]
fn host_category_error_names_the_input() {
    let err = HostCategory::parse("Hotel").unwrap_err();
    assert_eq!(err, "Hotel is not a valid host category!");
    assert_eq!(HostCategory::Hotel.as_str(), "hotel");
    assert_eq!(HostCategory::GuestHouse.as_str(), "guest_house");
}

#[test]
fn empty_string_is_rejected() {
    let email = "".to_string();
    assert!(CustomerEmail::parse(email).is_err());
}

#[test]
fn email_missing_at_symbol_is_rejected() {
    let email = "ursuladomain.com".to_string();
    assert!(CustomerEmail::parse(email).is_err());
}

#[test]
fn email_missing_subject_is_rejected() {
    let email = "@domain.com".to_string();
    assert!(CustomerEmail::parse(email).is_err());
}

#[test]
fn valid_email_is_accepted() {
    let email = CustomerEmail::parse("ursula@domain.com".to_string()).unwrap();
    assert_eq!(email.as_str(), "ursula@domain.com");
    let err = CustomerEmail::parse("nobody".to_string()).unwrap_err();
    assert_eq!(err, "nobody is not a valid subscriber email");
}

#[test]
fn general_name_rules() {
    assert_eq!(
        GeneralName::parse("Intercontinental".to_string()).unwrap().as_str(),
        "Intercontinental"
    );
    assert!(GeneralName::parse("".to_string()).is_err());
    for bad in ["a/b", "(x)", "say \"hi\"", "<p>", "back\\slash", "{}"] {
        let err = GeneralName::parse(bad.to_string()).unwrap_err();
        assert_eq!(err, format!("{} is not a valid Subscriber's name", bad));
    }
    assert!(GeneralName::parse("a".repeat(256)).is_ok());
    assert!(GeneralName::parse("a".repeat(257)).is_err());
    // one grapheme cluster of two characters each
    assert!(GeneralName::parse("e\u{301}".repeat(256)).is_ok());
    assert!(GeneralName::parse("e\u{301}".repeat(257)).is_err());
    assert!(is_valid_general_name("Double beds room", 16));
    assert!(!is_valid_general_name("Double beds room", 257));
}

#[test]
fn new_host_validates_name_then_category() {
    let host = NewHost::parse("Intercontinental".to_string(), "hotel").unwrap();
    assert_eq!(host.name.as_str(), "Intercontinental");
    assert_eq!(host.category, HostCategory::Hotel);
    match NewHost::parse("".to_string(), "prison") {
        Ok(_) => panic!("an empty name was accepted"),
        Err(e) => assert_eq!(e, " is not a valid Subscriber's name"),
    }
    match NewHost::parse("Inn".to_string(), "prison") {
        Ok(_) => panic!("an unknown category was accepted"),
        Err(e) => assert_eq!(e, "prison is not a valid host category!"),
    }
}

#[test]
fn check_api() {
    let session = Session::new();
    let ongoing_session = session.checkin();
    let done = ongoing_session.finish();

    assert!(done.completed());
}

#[test]
fn cancelled_session_reports_cancelled() {
    let session = Session::new();
    assert!(session.user_id.is_none());
    let id = session.id.clone();
    let ongoing_session = session.checkin();
    assert_eq!(ongoing_session.id, id);
    assert!(ongoing_session.user_id.is_some());
    let cancelled = ongoing_session.cancel();
    assert_eq!(cancelled.id, id);

    assert!(cancelled.cancelled());
}

#[test]
fn sessions_get_distinct_ids() {
    assert_ne!(Session::new().id, Session::new().id);
}

#[test]
fn session_id_is_a_v4_uuid_text() {
    let id = Session::new().id;
    let chars: Vec<char> = id.chars().collect();
    assert_eq!(chars.len(), 36);
    for (i, c) in chars.iter().enumerate() {
        if i == 8 || i == 13 || i == 18 || i == 23 {
            assert_eq!(*c, '-');
        } else {
            assert!(c.is_ascii_digit() || ('a'..='f').contains(c));
        }
    }
    assert_eq!(chars[14], '4');
    assert!(['8', '9', 'a', 'b'].contains(&chars[19]));
}

#[test]
fn sealed_method_is_called_through_the_crate() {
    let value = ExportedType {};
    value.method();
    call_to_sealed_meothod(&value);
}

#[test]
fn new_room_validates_its_name() {
    let host_id = uuid::Uuid::new_v4();
    let room = NewRoom::parse(host_id, "Double beds room".to_string(), "Two beds".to_string(), 2)
        .unwrap();
    assert_eq!(room.host_id, host_id);
    assert_eq!(room.name.as_str(), "Double beds room");
    assert_eq!(room.description, "Two beds");
    assert_eq!(room.number_of_beds, 2);
    match NewRoom::parse(host_id, "<b>".to_string(), "x".to_string(), 1) {
        Ok(_) => panic!("a name with markup was accepted"),
        Err(err) => assert_eq!(err, "<b> is not a valid Subscriber's name"),
    }
}
