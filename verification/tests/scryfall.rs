use ttsmagic::json::Json;
use ttsmagic::scryfall::api::{
    card_image_rel_filename, delay, find_bulk_file, Answer, BulkDataListItem, Found, ImageError,
    ImageFace, ImageFormat, ImageSearch, ImageStep,
};
use ttsmagic::scryfall::bulk::{
    adjusted_total, can_show, estimated_count, progress_message, read_all, should_download,
    BulkCards, BulkError, CUTOFF_SECONDS,
};
use ttsmagic::scryfall::cache::{cached, looked_up, CARD_CACHE_MICROSECONDS};
use ttsmagic::scryfall::lookup::{card_by_id, deck_color_identity, full_faced_lands};
use ttsmagic::scryfall::printings::{choose_options, deal, expand_oracle_id};
use ttsmagic::scryfall::queries::{can_be_a_commander_query, deck_color_identity_query, TextArray};
use ttsmagic::scryfall::rules::BasicLandType;
use ttsmagic::scryfall::{CardError, Field, ScryfallCard, ScryfallCardRow, ScryfallId, ScryfallOracleId};
use ttsmagic::uuids::Uuid;

const A: &str = "aaaaaaaa-0000-4000-8000-000000000001";
const B: &str = "bbbbbbbb-0000-4000-8000-000000000002";

fn card(json: &str) -> ScryfallCard {
    ScryfallCard { json: Json::parse(json).unwrap(), updated_at: 5 }
}

fn row(json: &str) -> ScryfallCardRow {
    ScryfallCardRow { json: json.to_string(), updated_at: 5 }
}

fn oracle() -> ScryfallOracleId {
    ScryfallOracleId(Uuid { bits: 7 })
}

#[test]
fn ids_of_cards() {
    let c = card(&format!("{{\"id\": \"{}\", \"oracle_id\": \"{}\"}}", A, B));
    assert_eq!(c.id().unwrap(), ScryfallId::parse(A).unwrap());
    assert_eq!(c.oracle_id().unwrap(), ScryfallOracleId::parse(B).unwrap());
    assert_eq!(c.id().unwrap().to_text(), A);
    assert_eq!(card("{}").id(), Err(CardError::Missing(Field::Id)));
    assert_eq!(card("{\"id\": 3}").id(), Err(CardError::NotText(Field::Id)));
    assert_eq!(card("{\"id\": \"x\"}").id(), Err(CardError::BadId(Field::Id)));
    assert_eq!(card("[]").oracle_id(), Err(CardError::Missing(Field::OracleId)));
    assert!(ScryfallCard::from_row(row("{")).is_err());
    assert_eq!(ScryfallCard::from_row(row("{}")).unwrap().updated_at, 5);
}

#[test]
fn names_of_cards() {
    let c = card("{\"name\": \"Fire // Ice\"}");
    let names = c.names();
    assert_eq!(names.first(), "Fire");
    assert_eq!(names.tail(), ["Ice".to_string()].as_slice());
    assert_eq!(c.combined_name(), "Fire // Ice");
    assert_eq!(card("{\"name\": \"Opt\"}").combined_name(), "Opt");
    assert_eq!(card("{\"name\": \"\"}").combined_name(), "");
    assert_eq!(
        card(&format!("{{\"id\": \"{}\"}}", A)).combined_name(),
        format!("<error getting name for card {}>", A)
    );
    assert_eq!(
        card("{}").combined_name(),
        "<error getting name for card <no card ID due to error: Card JSON missing \"id\" key>>"
    );
    assert_eq!(
        card("{\"name\": 1, \"id\": 1}").combined_name(),
        "<error getting name for card <no card ID due to error: Card JSON \"id\" field was not a string>>"
    );
    assert!(card("{\"id\": \"x\"}").combined_name().starts_with("<error getting name for card <no card ID"));
}

#[test]
fn descriptions_of_cards() {
    let all = card("{\"mana_cost\": \"{U}\", \"type_line\": \"Instant\", \"oracle_text\": \"Draw.\"}");
    assert_eq!(all.cost().unwrap(), "{U}");
    assert_eq!(all.type_line().unwrap(), "Instant");
    assert_eq!(all.oracle_text().unwrap(), "Draw.");
    assert_eq!(all.description().unwrap(), "{U}\n\nInstant\n\nDraw.");
    assert_eq!(card("{\"mana_cost\": \"{U}\", \"oracle_text\": \"x\"}").description().unwrap(), "{U}\n\nx");
    assert_eq!(card("{\"type_line\": \"Land\"}").description().unwrap(), "Land");
    assert_eq!(card("{}").description(), Err(CardError::Missing(Field::ManaCost)));
    assert_eq!(card("{\"mana_cost\": 1}").description(), Err(CardError::NotText(Field::ManaCost)));
}

#[test]
fn legality() {
    let c = card("{\"legalities\": {\"commander\": \"legal\", \"standard\": \"not_legal\", \"vintage\": \"restricted\", \"pauper\": 1}}");
    assert_eq!(c.legal_in("commander"), Ok(true));
    assert_eq!(c.legal_in("standard"), Ok(false));
    assert_eq!(c.legal_in("vintage"), Err(CardError::UnexpectedLegality));
    assert_eq!(c.legal_in("pauper"), Err(CardError::LegalityNotText));
    assert_eq!(c.legal_in("modern"), Err(CardError::UnknownFormat));
    assert_eq!(card("{}").legal_in("modern"), Err(CardError::Missing(Field::Legalities)));
}

#[test]
fn types_and_lands() {
    let c = card("{\"type_line\": \"Legendary Creature \u{2014} Elf Warrior\"}");
    let types = c.types().unwrap();
    assert!(types.contains("Legendary") && types.contains("Creature"));
    assert!(!types.contains("Elf") && !types.contains("\u{2014}"));
    assert_eq!(c.basic_land_type(), None);
    let forest = card("{\"type_line\": \"Basic Land \u{2014} Forest\"}");
    assert_eq!(forest.basic_land_type(), Some(BasicLandType::Forest));
    let swamp = card("{\"type_line\": \"Basic Land \u{2014} Swamp\"}").basic_land_type().unwrap();
    assert_eq!(swamp.oracle_id().bits, 0x56719f6a_1a6c_4c0a_8d21_18f7d7350b68);
    assert_eq!(BasicLandType::Island.oracle_id().to_text(), "b2c6aa39-2d2a-459c-a555-fb48ba993373");
    assert_eq!(card("{}").basic_land_type(), None);
    assert!(card("{}").types().is_err());
}

#[test]
fn commanders() {
    assert_eq!(card("{\"type_line\": \"Legendary Creature \u{2014} Elf\"}").can_be_a_commander(), Ok(true));
    assert_eq!(card("{\"type_line\": \"Creature \u{2014} Legendary\"}").can_be_a_commander(), Ok(false));
    assert_eq!(
        card("{\"name\": \"Teferi\", \"type_line\": \"Planeswalker\", \"oracle_text\": \"Teferi can be your commander.\"}")
            .can_be_a_commander(),
        Ok(true)
    );
    assert_eq!(
        card("{\"name\": \"Other\", \"type_line\": \"Planeswalker\", \"oracle_text\": \"Teferi can be your commander.\"}")
            .can_be_a_commander(),
        Ok(false)
    );
    assert_eq!(card("{}").can_be_a_commander(), Err(CardError::Missing(Field::TypeLine)));
}

fn printing(id: &str, full: bool, funny: bool) -> String {
    format!(
        "{{\"id\": \"{}\", \"full_art\": {}, \"set_type\": \"{}\"}}",
        id,
        full,
        if funny { "funny" } else { "core" }
    )
}

#[test]
fn full_art_goes_first() {
    let all = vec![
        card(&printing(A, false, false)),
        card(&printing(B, true, false)),
        card(&printing(A, true, true)),
    ];
    let picked = choose_options(&all);
    assert_eq!(picked.len(), 1);
    assert_eq!(picked[0].id().unwrap().to_text(), B);
    let dull = vec![card(&printing(B, false, true)), card(&printing(A, true, true))];
    assert_eq!(choose_options(&dull)[0].id().unwrap().to_text(), A);
    assert!(choose_options(&vec![]).is_empty());
}

#[test]
fn copies_are_dealt_in_turn() {
    let rows = vec![row(&printing(A, true, false)), row("nonsense"), row(&printing(B, true, false))];
    let t = expand_oracle_id(oracle(), rows, 5).unwrap();
    let got: Vec<(String, u8)> = t.iter().map(|p| (p.id.to_text(), p.count)).collect();
    assert_eq!(got, vec![(A.to_string(), 3), (B.to_string(), 2)]);
    assert!(matches!(expand_oracle_id(oracle(), vec![row("x")], 1), Err(CardError::NoPrintings(id)) if id == oracle()));
    assert!(expand_oracle_id(oracle(), vec![row(&printing(A, true, false))], 0).unwrap().is_empty());
    assert!(matches!(
        expand_oracle_id(oracle(), vec![row("{}")], 1),
        Err(CardError::Missing(Field::Id))
    ));
    assert_eq!(deal(&vec![card(&printing(A, true, false))], 255).unwrap()[0].count, 255);
    let three: Vec<ScryfallCard> = [A, B, "cccccccc-0000-4000-8000-000000000003"]
        .iter()
        .map(|id| card(&printing(id, true, false)))
        .collect();
    let shares = |n: u8| deal(&three, n).unwrap().iter().map(|p| p.count).collect::<Vec<u8>>();
    assert_eq!(shares(2), vec![1, 1]);
    assert_eq!(shares(3), vec![1, 1, 1]);
    assert_eq!(shares(7), vec![3, 2, 2]);
}

#[test]
fn bulk_file_is_read_card_by_card() {
    let bytes = b"[{\"name\": \"a\"},\n{\"name\": \"b\"}\n]";
    let cards = read_all(bytes).unwrap();
    let names: Vec<&str> = cards.iter().map(|c| c.text_of("name").unwrap()).collect();
    assert_eq!(names, vec!["a", "b"]);
    assert!(matches!(read_all(b"[{\"name\": \"a\"},{]  "), Err(BulkError::BadJson(_))));
    let mut it = BulkCards::new();
    assert_eq!(it.next(bytes).unwrap().unwrap().text_of("name"), Some("a"));
    assert_eq!(it.next(bytes).unwrap().unwrap().text_of("name"), Some("b"));
    assert!(it.next(bytes).is_none());
    assert_eq!(it.seen_cards, 2);
}

#[test]
fn bulk_file_is_downloaded_when_old() {
    let hour: i128 = 3_600_000_000_000;
    let now: i128 = 1_000_000 * hour;
    assert_eq!(CUTOFF_SECONDS, 23 * 60 * 60);
    assert!(should_download(true, Some(now), now));
    assert!(should_download(false, None, now));
    assert!(should_download(false, Some(now - 24 * hour), now));
    assert!(!should_download(false, Some(now - 23 * hour), now));
    assert!(should_download(false, Some(now - 23 * hour - 1), now));
    assert_eq!(estimated_count(7), 50_000);
    assert_eq!(estimated_count(-1), 50_000);
    assert_eq!(estimated_count(60_000), 60_000);
    assert_eq!(adjusted_total(10, 10), 10);
    assert_eq!(adjusted_total(10, 11), 21);
}

#[test]
fn bulk_messages() {
    let c = Json::parse(
        "{\"released_at\": \"1993-08-05\", \"set\": \"lea\", \"set_name\": \"Limited Edition Alpha\", \"name\": \"Our Market Research Shows That Players Like\"}",
    )
    .unwrap();
    assert!(can_show(&c));
    assert_eq!(
        progress_message(&c),
        format!("{:>10} {:>7} {:<30} | {:<30} ", "1993-08-05", "[lea]", "Limited Edition Alpha", "Our Market Research Shows That")
    );
    let empty = Json::parse("{}").unwrap();
    assert_eq!(
        progress_message(&empty),
        format!("{:>10} {:>7} {:<30} | {:<30} ", "????-??-??", "[???]", "<unknown set>", "<unknown card>")
    );
    let odd = Json::parse("{\"name\": \"aaaaaaaaaaaaaaaaaaaaaaaaaaaaa\u{e9}x\"}").unwrap();
    assert!(!can_show(&odd));
}

#[test]
fn cards_are_kept_for_two_weeks() {
    assert_eq!(CARD_CACHE_MICROSECONDS, 14 * 24 * 60 * 60 * 1_000_000);
    let c = ScryfallCard { json: Json::parse("{}").unwrap(), updated_at: 100 };
    assert!(cached(Some(c.clone()), 100, 10).is_some());
    assert!(cached(Some(c.clone()), 109, 10).is_some());
    assert!(cached(Some(c), 110, 10).is_none());
    assert!(cached(None, 110, 10).is_none());
    let (id, kept) = looked_up(Json::parse(&format!("{{\"id\": \"{}\"}}", A)).unwrap(), 42).unwrap();
    assert_eq!(id.to_text(), A);
    assert_eq!(kept.updated_at, 42);
    assert!(cached(Some(kept), 42, CARD_CACHE_MICROSECONDS).is_some());
    assert!(looked_up(Json::parse("{}").unwrap(), 42).is_err());
}

#[test]
fn query_texts() {
    let array = TextArray::new(2, "text", vec!["W".to_string(), "U".to_string()]);
    assert_eq!(array.to_text(), "ARRAY[$2, $3]::text[]");
    assert_eq!(array.bindings(), vec!["W".to_string(), "U".to_string()]);
    let (sql, values) = deck_color_identity_query(&vec![oracle()]);
    assert!(sql.ends_with("= ANY (ARRAY[$1]::uuid[])\n;"));
    assert_eq!(values, vec![oracle().to_text()]);
    let (sql, values) = can_be_a_commander_query(vec![]);
    assert!(sql.contains("@> to_jsonb(ARRAY[]::text[])\n"));
    assert!(sql.contains("ARRAY['Legendary','Creature']"));
    assert!(values.is_empty());
}

#[test]
fn lookups() {
    let id = ScryfallId::parse(A).unwrap();
    assert!(matches!(card_by_id(id, None), Err(CardError::Unknown(x)) if x == id));
    assert!(matches!(card_by_id(id, Some(row("?"))), Err(CardError::BadJson)));
    assert!(card_by_id(id, Some(row("{}"))).is_ok());
    assert_eq!(full_faced_lands(vec![row("{}"), row("[]")]).unwrap().len(), 2);
    assert!(matches!(full_faced_lands(vec![row("{}"), row("?")]), Err(CardError::BadJson)));
    let colors = ["W", "U", "W"].iter().map(|s| s.to_string()).collect();
    assert_eq!(deck_color_identity(colors), vec!["W".to_string(), "U".to_string()]);
}

#[test]
fn image_files_and_formats() {
    let id = ScryfallId::parse("b3c2bd44-4d75-4f61-89c0-1f1ba4d59ffa").unwrap();
    assert_eq!(
        card_image_rel_filename(id, ImageFormat::PNG),
        "cards/b3/c2/b3c2bd44-4d75-4f61-89c0-1f1ba4d59ffa_png.png"
    );
    assert_eq!(
        card_image_rel_filename(id, ImageFormat::BorderCrop),
        "cards/b3/c2/b3c2bd44-4d75-4f61-89c0-1f1ba4d59ffa_border-crop.jpg"
    );
    assert_eq!(ImageFormat::BorderCrop.downgrade(), Some(ImageFormat::PNG));
    assert_eq!(ImageFormat::PNG.downgrade(), Some(ImageFormat::Large));
    assert_eq!(ImageFormat::Large.downgrade(), Some(ImageFormat::Normal));
    assert_eq!(ImageFormat::Normal.downgrade(), Some(ImageFormat::Small));
    assert_eq!(ImageFormat::Small.downgrade(), None);
    assert_eq!(ImageFormat::ArtCrop.downgrade(), None);
    assert_eq!(ImageFormat::ArtCrop.api_str(), "art_crop");
    assert_eq!(ImageFace::default().api_str(), "");
    assert_eq!(ImageFace::Back.api_str(), "back");
}

fn png() -> Vec<u8> {
    let img = image::RgbImage::from_pixel(3, 2, image::Rgb([10, 20, 30]));
    let mut out = std::io::Cursor::new(Vec::new());
    img.write_to(&mut out, image::ImageFormat::Png).unwrap();
    out.into_inner()
}

fn redirect(url: &str) -> Answer {
    Answer::Got { status: 302, location: Some(url.to_string()) }
}

#[test]
fn kept_pictures_are_used() {
    let c = card(&format!("{{\"id\": \"{}\"}}", A));
    let mut s = c.ensure_image().unwrap();
    assert_eq!(s.step, ImageStep::OpenKept(ImageFormat::PNG));
    let picture = s.open_bytes(Some(png())).unwrap();
    assert_eq!((picture.width, picture.height), (3, 2));
    assert_eq!(picture.pixels, [10, 20, 30].repeat(6));
    assert_eq!(s.step, ImageStep::Done);
    assert!(card("{}").ensure_image().is_err());
}

#[test]
fn broken_pictures_are_deleted() {
    let id = ScryfallId::parse(A).unwrap();
    let mut s = ImageSearch::new(id, ImageFormat::PNG, ImageFace::Back);
    assert!(s.open_bytes(Some(vec![1, 2, 3])).is_none());
    assert_eq!(s.step, ImageStep::DeleteKept(ImageFormat::PNG));
    s.deleted();
    assert_eq!(s.step, ImageStep::OpenKept(ImageFormat::Large));
    s.opened(Found::Nothing);
    assert_eq!(s.step, ImageStep::Open(ImageFormat::PNG));
    s.opened(Found::Other);
    assert_eq!(s.step, ImageStep::Delete(ImageFormat::PNG));
    s.deleted();
    assert_eq!(s.step, ImageStep::Get { format: ImageFormat::PNG, asked: 0 });
    assert_eq!(
        s.url,
        format!("https://api.scryfall.com/cards/{}?format=image&version=png&face=back", A)
    );
    s.answered(redirect("https://example.com/x.png"));
    assert_eq!(s.step, ImageStep::Get { format: ImageFormat::PNG, asked: 1 });
    assert_eq!(s.url, "https://example.com/x.png");
    s.answered(Answer::Got { status: 200, location: None });
    assert_eq!(s.step, ImageStep::Read(ImageFormat::PNG));
    assert!(s.read_bytes(&png()).is_some());
    assert_eq!(s.step, ImageStep::Done);
}

fn asking(format: ImageFormat) -> ImageSearch {
    let mut s = ImageSearch::new(ScryfallId::parse(A).unwrap(), format, ImageFace::Front);
    s.opened(Found::Nothing);
    s.opened(Found::Nothing);
    s.opened(Found::Nothing);
    s
}

#[test]
fn lesser_formats_are_tried() {
    let mut s = asking(ImageFormat::Normal);
    s.answered(Answer::Got { status: 404, location: None });
    assert_eq!(s.step, ImageStep::Open(ImageFormat::Small));
    s.opened(Found::Nothing);
    s.answered(Answer::Failed);
    assert_eq!(s.step, ImageStep::Failed(ImageError::Unanswered));
    let mut s = asking(ImageFormat::ArtCrop);
    s.answered(Answer::Got { status: 500, location: None });
    assert_eq!(s.step, ImageStep::Failed(ImageError::Status(500)));
}

#[test]
fn redirects_end() {
    let mut s = asking(ImageFormat::PNG);
    for i in 0..5 {
        assert_eq!(s.step, ImageStep::Get { format: ImageFormat::PNG, asked: i });
        s.answered(redirect("https://example.com/"));
    }
    assert_eq!(s.step, ImageStep::Failed(ImageError::RedirectLoop));
    let mut s = asking(ImageFormat::PNG);
    s.answered(Answer::Got { status: 302, location: None });
    assert_eq!(s.step, ImageStep::Failed(ImageError::MissingLocation));
    let mut s = asking(ImageFormat::PNG);
    s.answered(Answer::Got { status: 200, location: None });
    assert!(s.read_bytes(&vec![0]).is_none());
    assert_eq!(s.step, ImageStep::Failed(ImageError::BadImage));
}

#[test]
fn bulk_files_are_found() {
    let item = |t: &str, u: &str| BulkDataListItem { type_: t.to_string(), download_uri: u.to_string() };
    let items = vec![item("oracle_cards", "1"), item("default_cards", "2"), item("default_cards", "3")];
    assert_eq!(find_bulk_file(&items, "default_cards").unwrap(), "2");
    assert!(find_bulk_file(&items, "rulings").is_none());
}

#[test]
fn queries_are_spaced() {
    assert_eq!(delay(0, 0), Some(200_000_000));
    assert_eq!(delay(0, 199_999_999), Some(1));
    assert_eq!(delay(0, 200_000_000), None);
    assert_eq!(delay(i64::MAX, i64::MAX), Some(200_000_000));
}
