use std::str::FromStr;
use ttsmagic::types::deck::{DeckColorIdentity, DeckId};
use ttsmagic::types::nonzero::NonZeroU16;
use ttsmagic::types::user::UserId;
use ttsmagic::uuids::Uuid;

#[test]
fn user_ids() {
    let id = UserId::parse("76561198000000000").unwrap();
    assert_eq!(id, UserId(76561198000000000));
    assert_eq!(id.to_text(), "76561198000000000");
    assert!(UserId::parse("x").is_err());
    assert!(UserId::parse("18446744073709551616").is_err());
    assert_eq!(UserId(u64::MAX).as_queryable(), -1);
    assert_eq!(UserId::from_queryable(-1), UserId(u64::MAX));
    assert_eq!(UserId::from_queryable(i64::MIN).as_queryable(), i64::MIN);
    assert_eq!(UserId::from(7u64), UserId(7));
    assert_eq!(UserId::from(-1i64), UserId(u64::MAX));
    for n in [0, 1, u64::MAX / 2, u64::MAX / 2 + 1, u64::MAX] {
        assert_eq!(UserId::from_queryable(UserId(n).as_queryable()), UserId(n));
        assert_eq!(UserId::parse(&UserId(n).to_text()).unwrap(), UserId(n));
    }
}

#[test]
fn deck_ids() {
    let s = "d12cf21a-e09c-41d5-92bb-9a0cefbd04f4";
    let id = DeckId::from_str(s).unwrap();
    assert_eq!(id.to_text(), s);
    assert_eq!(id.as_uuid(), Uuid::parse_str(s).unwrap());
    assert_eq!(DeckId::from(id.as_uuid()), id);
    assert!(DeckId::parse("no").is_err());
}

#[test]
fn nonzero() {
    assert!(NonZeroU16::new(0).is_none());
    assert_eq!(NonZeroU16::new(9).unwrap().get(), 9);
}

#[test]
fn color_identity_text() {
    let none = DeckColorIdentity::default();
    assert_eq!(none, DeckColorIdentity::colorless());
    assert!(!none.black && !none.blue && !none.green && !none.red && !none.white);
    let some = DeckColorIdentity { black: true, blue: false, green: true, red: false, white: false };
    assert_eq!(none.debug_text(), "DeckColorIdentity { colorless }");
    assert_eq!(
        some.debug_text(),
        "DeckColorIdentity { \u{1b}[37;40mblack\u{1b}[0m, \u{1b}[32mgreen\u{1b}[0m }"
    );
    let all = DeckColorIdentity { black: true, blue: true, green: true, red: true, white: true };
    assert_eq!(
        all.debug_text(),
        "DeckColorIdentity { \u{1b}[37;40mblack\u{1b}[0m, \u{1b}[34mblue\u{1b}[0m, \u{1b}[32mgreen\u{1b}[0m, \u{1b}[31mred\u{1b}[0m, \u{1b}[30;47mwhite\u{1b}[0m }"
    );
}
