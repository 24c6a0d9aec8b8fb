use html_markup::serialize::group_digits;
use html_markup::web::Refusal;
use html_markup::{AdminGuardMiddleware, Device, Identity, IsMaintenance, OptionalIdentity, State, Webhook};

#[derive(Clone, PartialEq, Debug)]
enum Mode {
    Open,
    Closed,
    Maintenance,
}

impl IsMaintenance for Mode {
    fn maintenance(&self) -> bool {
        *self == Mode::Maintenance
    }

    fn is_maintenance(&self) -> bool {
        *self == Mode::Maintenance
    }
}

#[test]
fn state_eq_any_and_is_none() {
    let s = State(Mode::Open);
    assert!(s.eq_any([Mode::Closed, Mode::Open]));
    assert!(!s.eq_any([Mode::Closed]));
    assert!(!s.is_none([Mode::Open]));
    assert!(s.is_none([Mode::Closed, Mode::Maintenance]));
    assert!(!s.eq_any::<0>([]));
}

#[test]
fn state_change_returns_previous() {
    let mut s = State(Mode::Open);
    assert_eq!(s.change(Mode::Closed), Mode::Open);
    assert_eq!(*s.get(), Mode::Closed);
}

#[test]
fn state_enter_refuses_maintenance() {
    assert!(State::enter(Mode::Maintenance).is_none());
    assert_eq!(State::enter(Mode::Open).map(|s| s.0), Some(Mode::Open));
}

#[test]
fn device_from_user_agent() {
    assert_eq!(Device::from_user_agent(Some("Mozilla/5.0 (iPhone; CPU iPhone OS 17_0)")), Device::Mobile);
    assert_eq!(Device::from_user_agent(Some("Mozilla/5.0 (Linux; Android 14) Mobile")), Device::Mobile);
    assert_eq!(Device::from_user_agent(Some("Windows Phone 10")), Device::Mobile);
    assert_eq!(Device::from_user_agent(Some("Mozilla/5.0 (Windows NT 10.0; Win64)")), Device::PC);
    assert_eq!(Device::from_user_agent(None), Device::PC);
}

#[test]
fn identity_from_session() {
    assert_eq!(Identity::from_session(Ok::<_, ()>(Some(7))).ok().map(|i| i.0), Some(7));
    assert_eq!(Identity::<i32>::from_session(Ok::<_, ()>(None)).err(), Some(Refusal::Unauthorized));
    assert_eq!(Identity::<i32>::from_session(Err(())).err(), Some(Refusal::BadRequest));
    assert_eq!(OptionalIdentity::from_session(Ok::<_, ()>(None::<i32>)).ok().map(|i| i.0), Some(None));
    assert_eq!(OptionalIdentity::<i32>::from_session(Err(())).err(), Some(Refusal::BadRequest));
}

#[test]
fn admin_guard_checks_key() {
    let g = AdminGuardMiddleware("secret".to_string());
    let inner = g.new_transform(5u8);
    assert_eq!(*inner.service(), 5);
    assert!(inner.allows(Some("secret")));
    assert!(!inner.allows(Some("Secret")));
    assert!(!inner.allows(Some("")));
    assert!(!inner.allows(None));
}

#[test]
fn webhook_fields() {
    let w = Webhook::new("hello", "bot", Some("http://a/b.png"));
    assert_eq!(w.content(), "hello");
    assert_eq!(w.username(), "bot");
    assert_eq!(w.avatar_url(), Some("http://a/b.png"));
    assert_eq!(Webhook::new("c", "u", None).avatar_url(), None);
}

#[test]
fn digits_grouped_by_three() {
    assert_eq!(group_digits("1234567"), "1,234,567");
    assert_eq!(group_digits("123"), "123");
    assert_eq!(group_digits("1234"), "1,234");
    assert_eq!(group_digits(""), "");
}
