//! What is asked of Scryfall.
use crate::imaging;
use crate::imaging::{FileFormat, RgbImage};
use crate::scryfall::ScryfallId;
use crate::text;
use crate::uuids;
use vstd::prelude::*;

verus! {

/// The formats in which Scryfall has the picture of a card.
#[derive(Clone, Copy, Debug, PartialEq, Eq, Structural)]
pub enum ImageFormat {
    PNG,
    BorderCrop,
    ArtCrop,
    Large,
    Normal,
    Small,
}

/// What Scryfall calls a format.
pub open spec fn format_name(f: ImageFormat) -> Seq<char> {
    match f {
        ImageFormat::PNG => "png"@,
        ImageFormat::BorderCrop => "border_crop"@,
        ImageFormat::ArtCrop => "art_crop"@,
        ImageFormat::Large => "large"@,
        ImageFormat::Normal => "normal"@,
        ImageFormat::Small => "small"@,
    }
}

/// The format that is tried where one cannot be had.
pub open spec fn next_format(f: ImageFormat) -> Option<ImageFormat> {
    match f {
        ImageFormat::PNG => Some(ImageFormat::Large),
        ImageFormat::BorderCrop => Some(ImageFormat::PNG),
        ImageFormat::ArtCrop => None,
        ImageFormat::Large => Some(ImageFormat::Normal),
        ImageFormat::Normal => Some(ImageFormat::Small),
        ImageFormat::Small => None,
    }
}

/// How the files of a format are encoded.
pub open spec fn file_format(f: ImageFormat) -> FileFormat {
    if f == ImageFormat::PNG {
        FileFormat::Png
    } else {
        FileFormat::Jpeg
    }
}

/// What the name of a file in a format ends with.
pub open spec fn file_ending(f: ImageFormat) -> Seq<char> {
    match f {
        ImageFormat::PNG => "_png.png"@,
        ImageFormat::BorderCrop => "_border-crop.jpg"@,
        ImageFormat::ArtCrop => "_art-crop.jpg"@,
        ImageFormat::Large => "_large.jpg"@,
        ImageFormat::Normal => "_normal.jpg"@,
        ImageFormat::Small => "_small.jpg"@,
    }
}

impl ImageFormat {
    /// What Scryfall calls the format.
    pub fn api_str(&self) -> (r: &'static str)
        ensures
            r@ == format_name(*self),
    {
        match self {
            ImageFormat::PNG => "png",
            ImageFormat::BorderCrop => "border_crop",
            ImageFormat::ArtCrop => "art_crop",
            ImageFormat::Large => "large",
            ImageFormat::Normal => "normal",
            ImageFormat::Small => "small",
        }
    }

    /// The format that is tried where this one cannot be had.
    pub fn downgrade(self) -> (r: Option<ImageFormat>)
        ensures
            r == next_format(self),
    {
        match self {
            ImageFormat::PNG => Some(ImageFormat::Large),
            ImageFormat::BorderCrop => Some(ImageFormat::PNG),
            ImageFormat::ArtCrop => None,
            ImageFormat::Large => Some(ImageFormat::Normal),
            ImageFormat::Normal => Some(ImageFormat::Small),
            ImageFormat::Small => None,
        }
    }

    /// How the format's files are encoded.
    pub fn raw(self) -> (r: FileFormat)
        ensures
            r == file_format(self),
    {
        match self {
            ImageFormat::PNG => FileFormat::Png,
            _ => FileFormat::Jpeg,
        }
    }

    fn ending(self) -> (r: &'static str)
        ensures
            r@ == file_ending(self),
    {
        match self {
            ImageFormat::PNG => "_png.png",
            ImageFormat::BorderCrop => "_border-crop.jpg",
            ImageFormat::ArtCrop => "_art-crop.jpg",
            ImageFormat::Large => "_large.jpg",
            ImageFormat::Normal => "_normal.jpg",
            ImageFormat::Small => "_small.jpg",
        }
    }
}

/// The faces of a card.
#[derive(Clone, Copy, Debug, PartialEq, Eq, Structural)]
pub enum ImageFace {
    Front,
    Back,
}

/// What Scryfall calls a face.
pub open spec fn face_name(f: ImageFace) -> Seq<char> {
    match f {
        ImageFace::Front => ""@,
        ImageFace::Back => "back"@,
    }
}

impl ImageFace {
    /// What Scryfall calls the face.
    pub fn api_str(&self) -> (r: &'static str)
        ensures
            r@ == face_name(*self),
    {
        match self {
            ImageFace::Front => "",
            ImageFace::Back => "back",
        }
    }
}

impl Default for ImageFace {
    fn default() -> (r: ImageFace)
        ensures
            r == ImageFace::Front,
    {
        ImageFace::Front
    }
}

/// The name of the file in which a picture is kept: its first folders are the beginning of the card's ID.
pub open spec fn kept_filename(id: int, format: ImageFormat) -> Seq<char> {
    let name = uuids::hyphenated(id);
    "cards/"@ + name.subrange(0, 2) + "/"@ + name.subrange(2, 4) + "/"@ + name + file_ending(format)
}

/// The name of the file in which a picture is kept.
pub fn card_image_rel_filename(id: ScryfallId, format: ImageFormat) -> (r: String)
    ensures
        r@ == kept_filename(id.0.bits as int, format),
{
    let name = id.to_text();
    proof {
        uuids::hyphenated_shape(id.0.bits as int);
    }
    let chars = text::to_chars(name.as_str());
    let mut path: String = "cards/".to_string();
    path.append(text::from_chars(&chars, 0, 2).as_str());
    path.append("/");
    path.append(text::from_chars(&chars, 2, 4).as_str());
    path.append("/");
    path.append(name.as_str());
    path.append(format.ending());
    path
}

/// The URL at which Scryfall has a picture.
pub open spec fn image_url(id: int, format: ImageFormat, face: ImageFace) -> Seq<char> {
    "https://api.scryfall.com/cards/"@ + uuids::hyphenated(id) + "?format=image&version="@ + format_name(format)
        + "&face="@ + face_name(face)
}

fn make_image_url(id: ScryfallId, format: ImageFormat, face: ImageFace) -> (r: String)
    ensures
        r@ == image_url(id.0.bits as int, format, face),
{
    let mut url = text::concat3("https://api.scryfall.com/cards/", id.to_text().as_str(), "?format=image&version=");
    url.append(format.api_str());
    url.append("&face=");
    url.append(face.api_str());
    url
}

/// Why there is no picture.
#[derive(Clone, Copy, Debug, PartialEq, Eq, Structural)]
pub enum ImageError {
    /// Scryfall could not be asked.
    Unanswered,
    /// Scryfall's answer has this status.
    Status(u16),
    /// Scryfall says that the picture is elsewhere, but not where.
    MissingLocation,
    /// Scryfall says too often that the picture is elsewhere.
    RedirectLoop,
    /// What Scryfall sent is no picture.
    BadImage,
}

/// What is to be done next to get a picture.
#[derive(Clone, Copy, Debug, PartialEq, Eq, Structural)]
pub enum ImageStep {
    /// Open the file that is kept in a format, before any is asked for.
    OpenKept(ImageFormat),
    /// Delete such a file, which is no picture.
    DeleteKept(ImageFormat),
    /// Open the file that is kept in the format that is wanted now.
    Open(ImageFormat),
    /// Delete such a file, which is no picture.
    Delete(ImageFormat),
    /// Ask Scryfall, which was asked that many times for this format.
    Get { format: ImageFormat, asked: u8 },
    /// Read the picture in Scryfall's answer.
    Read(ImageFormat),
    /// Nothing: the picture is there.
    Done,
    /// Nothing: there is no picture.
    Failed(ImageError),
}

/// How often Scryfall is asked for a picture in a format.
pub const MAX_ASKED: u8 = 5;

/// What is done once a format that is looked for first was looked for.
pub open spec fn after_kept(kept: ImageFormat, wanted: ImageFormat) -> ImageStep {
    if kept == ImageFormat::PNG {
        ImageStep::OpenKept(ImageFormat::Large)
    } else {
        ImageStep::Open(wanted)
    }
}

/// What was found in a file.
#[derive(Clone, Copy, Debug, PartialEq, Eq, Structural)]
pub enum Found {
    Nothing,
    Picture,
    Other,
}

/// The format of the file that a step opens.
pub open spec fn format_to_open(step: ImageStep) -> Option<ImageFormat> {
    match step {
        ImageStep::OpenKept(f) => Some(f),
        ImageStep::Open(f) => Some(f),
        _ => None,
    }
}

/// What was found where some bytes, or no file at all, were found.
pub open spec fn found_in(step: ImageStep, bytes: Option<Vec<u8>>) -> Found {
    match (format_to_open(step), bytes) {
        (Some(f), Some(b)) => if imaging::decoded_picture(b@, file_format(f)) is Some {
            Found::Picture
        } else {
            Found::Other
        },
        (_, _) => Found::Nothing,
    }
}

/// What is done after a file was opened.
pub open spec fn after_open(step: ImageStep, wanted: ImageFormat, found: Found) -> ImageStep {
    match (step, found) {
        (ImageStep::OpenKept(_), Found::Picture) => ImageStep::Done,
        (ImageStep::OpenKept(f), Found::Other) => ImageStep::DeleteKept(f),
        (ImageStep::OpenKept(f), Found::Nothing) => after_kept(f, wanted),
        (ImageStep::Open(_), Found::Picture) => ImageStep::Done,
        (ImageStep::Open(f), Found::Other) => ImageStep::Delete(f),
        (ImageStep::Open(f), Found::Nothing) => ImageStep::Get { format: f, asked: 0 },
        (_, _) => step,
    }
}

/// What is done after a file was deleted.
pub open spec fn after_delete(step: ImageStep, wanted: ImageFormat) -> ImageStep {
    match step {
        ImageStep::DeleteKept(f) => after_kept(f, wanted),
        ImageStep::Delete(f) => ImageStep::Get { format: f, asked: 0 },
        _ => step,
    }
}

/// What is done where a format cannot be had.
pub open spec fn without_format(format: ImageFormat, error: ImageError) -> ImageStep {
    match next_format(format) {
        Some(f) => ImageStep::Open(f),
        None => ImageStep::Failed(error),
    }
}

/// Scryfall's answer: its status, and where it says that the picture is.
#[derive(Debug)]
pub enum Answer {
    Failed,
    Got { status: u16, location: Option<String> },
}

/// What is done after Scryfall's answer.
pub open spec fn after_answer(step: ImageStep, answer: Answer) -> ImageStep {
    match step {
        ImageStep::Get { format, asked } => match answer {
            Answer::Failed => without_format(format, ImageError::Unanswered),
            Answer::Got { status, location } => if status == 200 {
                ImageStep::Read(format)
            } else if status == 302 {
                if location is None {
                    ImageStep::Failed(ImageError::MissingLocation)
                } else if asked + 1 >= MAX_ASKED {
                    ImageStep::Failed(ImageError::RedirectLoop)
                } else {
                    ImageStep::Get { format, asked: (asked + 1) as u8 }
                }
            } else {
                without_format(format, ImageError::Status(status))
            },
        },
        _ => step,
    }
}

/// The search for a picture: among the kept files first, and then at Scryfall, in ever lesser formats.
#[derive(Debug)]
pub struct ImageSearch {
    pub id: ScryfallId,
    pub face: ImageFace,
    pub wanted: ImageFormat,
    pub step: ImageStep,
    pub url: String,
}

impl ImageSearch {
    /// Begins to search for a picture.
    pub fn new(id: ScryfallId, format: ImageFormat, face: ImageFace) -> (r: ImageSearch)
        ensures
            r.id == id,
            r.face == face,
            r.wanted == format,
            r.step == ImageStep::OpenKept(ImageFormat::PNG),
            r.url@ == ""@,
    {
        ImageSearch {
            id,
            face,
            wanted: format,
            step: ImageStep::OpenKept(ImageFormat::PNG),
            url: "".to_string(),
        }
    }

    fn go_on(&mut self, step: ImageStep)
        ensures
            final(self).id == old(self).id,
            final(self).face == old(self).face,
            final(self).wanted == old(self).wanted,
            final(self).step == step,
            match step {
                ImageStep::Get { format, asked: 0 } => final(self).url@ == image_url(
                    old(self).id.0.bits as int,
                    format,
                    old(self).face,
                ),
                _ => final(self).url == old(self).url,
            },
    {
        if let ImageStep::Get { format, asked } = step {
            if asked == 0 {
                self.url = make_image_url(self.id, format, self.face);
            }
        }
        self.step = step;
    }

    fn skip_kept(kept: ImageFormat, wanted: ImageFormat) -> (r: ImageStep)
        ensures
            r == after_kept(kept, wanted),
    {
        if kept == ImageFormat::PNG {
            ImageStep::OpenKept(ImageFormat::Large)
        } else {
            ImageStep::Open(wanted)
        }
    }

    /// Goes on after a file was opened.
    pub fn opened(&mut self, found: Found)
        ensures
            final(self).id == old(self).id,
            final(self).face == old(self).face,
            final(self).wanted == old(self).wanted,
            final(self).step == after_open(old(self).step, old(self).wanted, found),
            match (old(self).step, found) {
                (ImageStep::Open(format), Found::Nothing) => final(self).url@ == image_url(
                    old(self).id.0.bits as int,
                    format,
                    old(self).face,
                ),
                _ => final(self).url == old(self).url,
            },
    {
        let step = match (self.step, found) {
            (ImageStep::OpenKept(_), Found::Picture) => ImageStep::Done,
            (ImageStep::OpenKept(f), Found::Other) => ImageStep::DeleteKept(f),
            (ImageStep::OpenKept(f), Found::Nothing) => ImageSearch::skip_kept(f, self.wanted),
            (ImageStep::Open(_), Found::Picture) => ImageStep::Done,
            (ImageStep::Open(f), Found::Other) => ImageStep::Delete(f),
            (ImageStep::Open(f), Found::Nothing) => ImageStep::Get { format: f, asked: 0 },
            (_, _) => {
                return ;
            },
        };
        self.go_on(step);
    }

    /// Takes the bytes of an opened file, where there is one, and gives the picture that they are.
    pub fn open_bytes(&mut self, bytes: Option<Vec<u8>>) -> (r: Option<RgbImage>)
        ensures
            final(self).id == old(self).id,
            final(self).face == old(self).face,
            final(self).wanted == old(self).wanted,
            match (format_to_open(old(self).step), bytes) {
                (Some(format), Some(b)) => {
                    &&& r is Some == imaging::decoded_picture(b@, file_format(format)) is Some
                    &&& r matches Some(picture) ==> imaging::is_decoded(picture, b@, file_format(format))
                },
                _ => r is None,
            },
            final(self).step == after_open(old(self).step, old(self).wanted, found_in(old(self).step, bytes)),
            match (old(self).step, bytes) {
                (ImageStep::Open(format), None) => final(self).url@ == image_url(
                    old(self).id.0.bits as int,
                    format,
                    old(self).face,
                ),
                _ => final(self).url == old(self).url,
            },
    {
        let format = match self.step {
            ImageStep::OpenKept(f) => f,
            ImageStep::Open(f) => f,
            _ => {
                return None;
            },
        };
        match bytes {
            None => {
                self.opened(Found::Nothing);
                None
            },
            Some(b) => match imaging::decode(&b, format.raw()) {
                Some(picture) => {
                    self.opened(Found::Picture);
                    Some(picture)
                },
                None => {
                    self.opened(Found::Other);
                    None
                },
            },
        }
    }

    /// Goes on after a file was deleted.
    pub fn deleted(&mut self)
        ensures
            final(self).id == old(self).id,
            final(self).face == old(self).face,
            final(self).wanted == old(self).wanted,
            final(self).step == after_delete(old(self).step, old(self).wanted),
            match old(self).step {
                ImageStep::Delete(format) => final(self).url@ == image_url(
                    old(self).id.0.bits as int,
                    format,
                    old(self).face,
                ),
                _ => final(self).url == old(self).url,
            },
    {
        let step = match self.step {
            ImageStep::DeleteKept(f) => ImageSearch::skip_kept(f, self.wanted),
            ImageStep::Delete(f) => ImageStep::Get { format: f, asked: 0 },
            _ => {
                return ;
            },
        };
        self.go_on(step);
    }

    fn give_up(format: ImageFormat, error: ImageError) -> (r: ImageStep)
        ensures
            r == without_format(format, error),
    {
        match format.downgrade() {
            Some(f) => ImageStep::Open(f),
            None => ImageStep::Failed(error),
        }
    }

    /// Goes on after Scryfall's answer.
    pub fn answered(&mut self, answer: Answer)
        ensures
            final(self).id == old(self).id,
            final(self).face == old(self).face,
            final(self).wanted == old(self).wanted,
            final(self).step == after_answer(old(self).step, answer),
            match (old(self).step, answer) {
                (ImageStep::Get { .. }, Answer::Got { status: 302, location: Some(url) }) => final(self).url
                    == if final(self).step is Get {
                    url
                } else {
                    old(self).url
                },
                _ => final(self).url == old(self).url,
            },
    {
        let (format, asked) = match self.step {
            ImageStep::Get { format, asked } => (format, asked),
            _ => {
                return ;
            },
        };
        match answer {
            Answer::Failed => {
                self.step = ImageSearch::give_up(format, ImageError::Unanswered);
            },
            Answer::Got { status, location } => {
                if status == 200 {
                    self.step = ImageStep::Read(format);
                } else if status == 302 {
                    match location {
                        None => {
                            self.step = ImageStep::Failed(ImageError::MissingLocation);
                        },
                        Some(url) => {
                            if asked >= MAX_ASKED - 1 {
                                self.step = ImageStep::Failed(ImageError::RedirectLoop);
                            } else {
                                self.step = ImageStep::Get { format, asked: asked + 1 };
                                self.url = url;
                            }
                        },
                    }
                } else {
                    self.step = ImageSearch::give_up(format, ImageError::Status(status));
                }
            },
        }
    }

    /// Takes the bytes of Scryfall's answer, and gives the picture that they are. No lesser format is tried
    /// where they are none.
    pub fn read_bytes(&mut self, bytes: &Vec<u8>) -> (r: Option<RgbImage>)
        ensures
            final(self).id == old(self).id,
            final(self).face == old(self).face,
            final(self).wanted == old(self).wanted,
            final(self).url == old(self).url,
            match old(self).step {
                ImageStep::Read(format) => {
                    &&& r is Some == imaging::decoded_picture(bytes@, file_format(format)) is Some
                    &&& r matches Some(picture) ==> imaging::is_decoded(picture, bytes@, file_format(format))
                    &&& final(self).step == if r is Some {
                        ImageStep::Done
                    } else {
                        ImageStep::Failed(ImageError::BadImage)
                    }
                },
                _ => r is None && final(self).step == old(self).step,
            },
    {
        let format = match self.step {
            ImageStep::Read(f) => f,
            _ => {
                return None;
            },
        };
        match imaging::decode(bytes, format.raw()) {
            Some(picture) => {
                self.step = ImageStep::Done;
                Some(picture)
            },
            None => {
                self.step = ImageStep::Failed(ImageError::BadImage);
                None
            },
        }
    }
}

/// How many formats are left to try.
pub open spec fn formats_left(f: ImageFormat) -> int {
    match f {
        ImageFormat::BorderCrop => 5,
        ImageFormat::PNG => 4,
        ImageFormat::Large => 3,
        ImageFormat::Normal => 2,
        ImageFormat::Small => 1,
        ImageFormat::ArtCrop => 1,
    }
}

/// How many steps are left at most.
pub open spec fn steps_left(step: ImageStep) -> int {
    match step {
        ImageStep::OpenKept(f) => if f == ImageFormat::PNG {
            104
        } else {
            102
        },
        ImageStep::DeleteKept(f) => if f == ImageFormat::PNG {
            103
        } else {
            101
        },
        ImageStep::Open(f) => 10 * formats_left(f) + 9,
        ImageStep::Delete(f) => 10 * formats_left(f) + 8,
        ImageStep::Get { format, asked } => 10 * formats_left(format) + (if asked <= 5 {
            7 - asked
        } else {
            2
        }),
        ImageStep::Read(f) => 1,
        ImageStep::Done => 0,
        ImageStep::Failed(_) => 0,
    }
}

/// The search for a picture ends: every step leaves fewer.
pub proof fn image_search_ends(step: ImageStep, wanted: ImageFormat, found: Found, answer: Answer)
    ensures
        steps_left(step) >= 0,
        step is OpenKept || step is Open ==> 0 <= steps_left(after_open(step, wanted, found)) < steps_left(step),
        step is DeleteKept || step is Delete ==> 0 <= steps_left(after_delete(step, wanted)) < steps_left(step),
        step is Get ==> 0 <= steps_left(after_answer(step, answer)) < steps_left(step),
{
}

/// Scryfall is asked no more than the allowed number of times for a picture in a format.
pub proof fn asked_is_bounded(step: ImageStep, wanted: ImageFormat, found: Found, answer: Answer)
    requires
        step matches ImageStep::Get { asked, .. } ==> asked < MAX_ASKED,
    ensures
        after_open(step, wanted, found) matches ImageStep::Get { asked, .. } ==> asked < MAX_ASKED,
        after_delete(step, wanted) matches ImageStep::Get { asked, .. } ==> asked < MAX_ASKED,
        after_answer(step, answer) matches ImageStep::Get { asked, .. } ==> asked < MAX_ASKED,
{
}

/// An entry in Scryfall's list of bulk files.
#[derive(Debug)]
pub struct BulkDataListItem {
    pub type_: String,
    pub download_uri: String,
}

/// Where Scryfall lists its bulk files.
pub const BULK_URL: &'static str = "https://api.scryfall.com/bulk-data";

/// The place of the first entry of a type; the number of entries where there is none.
pub open spec fn place_of_type(items: Seq<BulkDataListItem>, file: Seq<char>) -> int
    decreases items.len(),
{
    if items.len() == 0 || items[0].type_@ == file {
        0
    } else {
        1 + place_of_type(items.drop_first(), file)
    }
}

/// Where a bulk file can be had.
pub fn find_bulk_file(items: &Vec<BulkDataListItem>, file: &str) -> (r: Option<String>)
    ensures
        match r {
            Some(uri) => {
                let i = place_of_type(items@, file@);
                0 <= i < items@.len() && items@[i].type_@ == file@ && uri == items@[i].download_uri
            },
            None => place_of_type(items@, file@) == items@.len(),
        },
{
    let ghost all = items@;
    let mut i: usize = 0;
    assert(all.skip(0) =~= all);
    while i < items.len()
        invariant
            i <= items@.len(),
            all == items@,
            place_of_type(all, file@) == i + place_of_type(all.skip(i as int), file@),
        decreases items.len() - i,
    {
        assert(all.skip(i as int)[0] == all[i as int]);
        if text::same_text(items[i].type_.as_str(), file) {
            return Some(items[i].download_uri.clone());
        }
        assert(all.skip(i as int).drop_first() =~= all.skip(i + 1));
        i = i + 1;
    }
    None
}

/// How long to wait between two queries, in nanoseconds.
pub const QUERY_GAP: i128 = 200_000_000;

/// How long to wait before a query, both times in nanoseconds since the epoch.
pub fn delay(last_query: i64, now: i64) -> (r: Option<i128>)
    ensures
        r == if now < last_query + QUERY_GAP {
            Some((last_query + QUERY_GAP - now) as i128)
        } else {
            None
        },
{
    let threshold: i128 = last_query as i128 + QUERY_GAP;
    if (now as i128) < threshold {
        Some(threshold - now as i128)
    } else {
        None
    }
}

/// The formats are tried from the best one on: the cropped border first, then the picture without loss, then the
/// large, the normal and the small one. Art alone is not replaced by anything.
pub proof fn formats_are_tried_in_turn()
    ensures
        next_format(ImageFormat::BorderCrop) == Some(ImageFormat::PNG),
        next_format(ImageFormat::PNG) == Some(ImageFormat::Large),
        next_format(ImageFormat::Large) == Some(ImageFormat::Normal),
        next_format(ImageFormat::Normal) == Some(ImageFormat::Small),
        next_format(ImageFormat::Small) is None,
        next_format(ImageFormat::ArtCrop) is None,
{
}

/// Where one format is tried for another, it comes at once behind it, and no format is tried for two others.
pub proof fn no_format_is_tried_twice(a: ImageFormat, b: ImageFormat)
    ensures
        next_format(a) is Some && next_format(a) == next_format(b) ==> a == b,
        next_format(a) matches Some(f) ==> formats_left(f) == formats_left(a) - 1,
        next_format(a) is None ==> formats_left(a) == 1,
{
}

/// A picture that is found in any file ends the search; before a file that is no picture is passed over it is
/// deleted.
pub proof fn found_picture_ends_search(format: ImageFormat, wanted: ImageFormat)
    ensures
        after_open(ImageStep::OpenKept(format), wanted, Found::Picture) is Done,
        after_open(ImageStep::Open(format), wanted, Found::Picture) is Done,
        after_open(ImageStep::OpenKept(format), wanted, Found::Other) == ImageStep::DeleteKept(format),
        after_open(ImageStep::Open(format), wanted, Found::Other) == ImageStep::Delete(format),
        after_delete(ImageStep::DeleteKept(format), wanted) == after_open(
            ImageStep::OpenKept(format),
            wanted,
            Found::Nothing,
        ),
        after_delete(ImageStep::Delete(format), wanted) == after_open(
            ImageStep::Open(format),
            wanted,
            Found::Nothing,
        ),
{
}

/// Where no file is kept, the two formats that are kept most often and the wanted one are looked for before
/// Scryfall is asked, and it is asked for the wanted one.
pub proof fn kept_files_are_looked_for_first(wanted: ImageFormat)
    ensures
        ({
            let first = ImageStep::OpenKept(ImageFormat::PNG);
            let second = after_open(first, wanted, Found::Nothing);
            let third = after_open(second, wanted, Found::Nothing);
            &&& second == ImageStep::OpenKept(ImageFormat::Large)
            &&& third == ImageStep::Open(wanted)
            &&& after_open(third, wanted, Found::Nothing) == ImageStep::Get { format: wanted, asked: 0 }
        }),
{
}

/// What Scryfall's answers lead to: a picture is read; a format that cannot be had is followed by the next one,
/// and by the answer's problem where there is none.
pub proof fn answers_lead_on(format: ImageFormat, asked: u8, status: u16, location: Option<String>)
    ensures
        ({
            let step = ImageStep::Get { format, asked };
            let got = after_answer(step, Answer::Got { status, location });
            &&& status == 200 ==> got == ImageStep::Read(format)
            &&& status != 200 && status != 302 ==> got == match next_format(format) {
                Some(f) => ImageStep::Open(f),
                None => ImageStep::Failed(ImageError::Status(status)),
            }
            &&& after_answer(step, Answer::Failed) == match next_format(format) {
                Some(f) => ImageStep::Open(f),
                None => ImageStep::Failed(ImageError::Unanswered),
            }
            &&& status == 302 && location is None ==> got == ImageStep::Failed(ImageError::MissingLocation)
        }),
{
}

/// Where the search is after some answers that the picture is elsewhere.
pub open spec fn after_redirects(format: ImageFormat, places: Seq<String>) -> ImageStep
    decreases places.len(),
{
    if places.len() == 0 {
        ImageStep::Get { format, asked: 0 }
    } else {
        after_answer(
            after_redirects(format, places.drop_last()),
            Answer::Got { status: 302, location: Some(places.last()) },
        )
    }
}

/// Scryfall may say four times that a picture is elsewhere; the fifth time is one too many.
pub proof fn five_redirects_are_too_many(format: ImageFormat, places: Seq<String>)
    ensures
        after_redirects(format, places) == if places.len() < 5 {
            ImageStep::Get { format, asked: places.len() as u8 }
        } else {
            ImageStep::Failed(ImageError::RedirectLoop)
        },
    decreases places.len(),
{
    if places.len() > 0 {
        five_redirects_are_too_many(format, places.drop_last());
    }
}

/// No two pictures are kept in the same file.
pub proof fn kept_filenames_differ(a: u128, b: u128, f: ImageFormat, g: ImageFormat)
    requires
        kept_filename(a as int, f) == kept_filename(b as int, g),
    ensures
        a == b,
        f == g,
{
    uuids::hyphenated_shape(a as int);
    uuids::hyphenated_shape(b as int);
    endings_differ(f, g);
    reveal_strlit("cards/");
    reveal_strlit("/");
    let name_a = uuids::hyphenated(a as int);
    let name_b = uuids::hyphenated(b as int);
    let x = kept_filename(a as int, f);
    let y = kept_filename(b as int, g);
    assert(x.subrange(12, 48) =~= name_a);
    assert(y.subrange(12, 48) =~= name_b);
    assert(x.skip(48) =~= file_ending(f));
    assert(y.skip(48) =~= file_ending(g));
    uuids::hyphenated_injective(a, b);
}

proof fn endings_differ(f: ImageFormat, g: ImageFormat)
    ensures
        file_ending(f) == file_ending(g) ==> f == g,
{
    reveal_strlit("_png.png");
    reveal_strlit("_border-crop.jpg");
    reveal_strlit("_art-crop.jpg");
    reveal_strlit("_large.jpg");
    reveal_strlit("_normal.jpg");
    reveal_strlit("_small.jpg");
    assert(file_ending(f)[1] == match f {
        ImageFormat::PNG => 'p',
        ImageFormat::BorderCrop => 'b',
        ImageFormat::ArtCrop => 'a',
        ImageFormat::Large => 'l',
        ImageFormat::Normal => 'n',
        ImageFormat::Small => 's',
    });
    assert(file_ending(g)[1] == match g {
        ImageFormat::PNG => 'p',
        ImageFormat::BorderCrop => 'b',
        ImageFormat::ArtCrop => 'a',
        ImageFormat::Large => 'l',
        ImageFormat::Normal => 'n',
        ImageFormat::Small => 's',
    });
}

/// A picture is kept under the beginning of its card's ID, in folders of two characters each.
pub proof fn kept_filename_begins_with_id(id: u128, format: ImageFormat)
    ensures
        ({
            let path = kept_filename(id as int, format);
            let name = uuids::hyphenated(id as int);
            &&& path.take(6) == "cards/"@
            &&& path[6] == name[0] && path[7] == name[1] && path[8] == '/'
            &&& path[9] == name[2] && path[10] == name[3] && path[11] == '/'
            &&& path.subrange(12, 48) == name
        }),
{
    uuids::hyphenated_shape(id as int);
    reveal_strlit("cards/");
    reveal_strlit("/");
    let path = kept_filename(id as int, format);
    assert(path.take(6) =~= "cards/"@);
    assert(path.subrange(12, 48) =~= uuids::hyphenated(id as int));
}

/// The first entry of a type is the one that is found, and none where no entry has the type.
pub proof fn first_of_type_is_found(items: Seq<BulkDataListItem>, file: Seq<char>)
    ensures
        ({
            let k = place_of_type(items, file);
            &&& 0 <= k <= items.len()
            &&& k < items.len() ==> items[k].type_@ == file
            &&& forall|i: int| 0 <= i < k ==> (#[trigger] items[i]).type_@ != file
        }),
    decreases items.len(),
{
    if items.len() > 0 && items[0].type_@ != file {
        let t = items.drop_first();
        first_of_type_is_found(t, file);
        assert forall|i: int| 0 <= i < place_of_type(items, file) implies (#[trigger] items[i]).type_@ != file by {
            if i > 0 {
                assert(t[i - 1].type_@ != file);
            }
        }
    }
}

/// The pictures of cards are kept in the bucket for them.
pub proof fn pictures_have_their_bucket(id: u128, format: ImageFormat)
    ensures
        crate::files::bucket_of(kept_filename(id as int, format)) == Some(crate::files::FileBucket::CardImages),
{
    reveal_strlit("cards/");
    reveal_strlit("cards");
    let folder = "cards"@;
    let path = kept_filename(id as int, format);
    let rest = path.skip(6);
    assert(path =~= folder.push('/') + rest);
    assert(folder[0] == 'c' && folder[1] == 'a' && folder[2] == 'r' && folder[3] == 'd' && folder[4] == 's');
    assert(!folder.contains('/'));
    crate::files::first_folder_says_bucket(folder, rest);
}

/// The file that is opened decides: without one nothing is found, and a picture is found where its bytes are one in
/// the format of the step.
pub proof fn what_is_found(format: ImageFormat, bytes: Vec<u8>)
    ensures
        found_in(ImageStep::OpenKept(format), None) == Found::Nothing,
        found_in(ImageStep::Open(format), None) == Found::Nothing,
        found_in(ImageStep::OpenKept(format), Some(bytes)) == found_in(ImageStep::Open(format), Some(bytes)),
        found_in(ImageStep::Open(format), Some(bytes)) == Found::Picture <==> imaging::decoded_picture(
            bytes@,
            if format == ImageFormat::PNG {
                FileFormat::Png
            } else {
                FileFormat::Jpeg
            },
        ) is Some,
        found_in(ImageStep::Open(format), Some(bytes)) != Found::Nothing,
{
}

/// What Scryfall calls its formats and the faces of a card, and where it has a picture of them.
pub proof fn where_pictures_are(id: u128, format: ImageFormat, face: ImageFace)
    ensures
        format_name(ImageFormat::PNG) == "png"@,
        format_name(ImageFormat::BorderCrop) == "border_crop"@,
        format_name(ImageFormat::ArtCrop) == "art_crop"@,
        format_name(ImageFormat::Large) == "large"@,
        format_name(ImageFormat::Normal) == "normal"@,
        format_name(ImageFormat::Small) == "small"@,
        face_name(ImageFace::Front) == ""@,
        face_name(ImageFace::Back) == "back"@,
        image_url(id as int, format, face) == "https://api.scryfall.com/cards/"@ + uuids::hyphenated(id as int)
            + "?format=image&version="@ + format_name(format) + "&face="@ + face_name(face),
{
}

/// The name of a kept file ends as its format is encoded.
pub proof fn kept_filename_ends_with_format(id: u128, format: ImageFormat)
    ensures
        format == ImageFormat::PNG ==> text::has_suffix(kept_filename(id as int, format), ".png"@),
        format != ImageFormat::PNG ==> text::has_suffix(kept_filename(id as int, format), ".jpg"@),
{
    reveal_strlit("_png.png");
    reveal_strlit("_border-crop.jpg");
    reveal_strlit("_art-crop.jpg");
    reveal_strlit("_large.jpg");
    reveal_strlit("_normal.jpg");
    reveal_strlit("_small.jpg");
    reveal_strlit(".png");
    reveal_strlit(".jpg");
    let path = kept_filename(id as int, format);
    let n = path.len() as int;
    let ending = file_ending(format);
    assert(path.subrange(n - 4, n) =~= ending.subrange(ending.len() - 4, ending.len() as int));
    if format == ImageFormat::PNG {
        assert(path.subrange(n - 4, n) =~= ".png"@);
    } else {
        assert(path.subrange(n - 4, n) =~= ".jpg"@);
    }
}

/// Scryfall is asked five times at most for a format, and no two queries come within a fifth of a second.
pub proof fn scryfall_is_spared()
    ensures
        MAX_ASKED == 5,
        5 * QUERY_GAP == 1_000_000_000,
{
}

/// What is opened, deleted or answered counts only in a step that waits for it.
pub proof fn other_steps_stay(step: ImageStep, wanted: ImageFormat, found: Found, answer: Answer)
    ensures
        !(step is OpenKept) && !(step is Open) ==> after_open(step, wanted, found) == step,
        !(step is DeleteKept) && !(step is Delete) ==> after_delete(step, wanted) == step,
        !(step is Get) ==> after_answer(step, answer) == step,
{
}

} // verus!
