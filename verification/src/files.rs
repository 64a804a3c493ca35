//! The files that the server keeps in object storage.
use crate::text;
use crate::urls;
use crate::urls::{Url, UrlError};
use vstd::prelude::*;

verus! {

/// The buckets of the object storage.
#[derive(Clone, Copy, Debug, PartialEq, Eq, Structural)]
pub enum FileBucket {
    CardImages,
    DeckPages,
}

/// The bucket for files in a folder.
pub open spec fn folder_bucket(folder: Seq<char>) -> Option<FileBucket> {
    if folder == "cards"@ || folder == "tokens"@ {
        Some(FileBucket::CardImages)
    } else if folder == "page"@ || folder == "pages"@ {
        Some(FileBucket::DeckPages)
    } else {
        None
    }
}

/// The bucket for a file: its first folder decides.
pub open spec fn bucket_of(key: Seq<char>) -> Option<FileBucket> {
    let slash = text::char_at_first(key, '/');
    if slash < 0 {
        None
    } else {
        folder_bucket(key.take(slash))
    }
}

/// The name of a bucket.
pub open spec fn bucket_name(bucket: FileBucket) -> Seq<char> {
    match bucket {
        FileBucket::CardImages => "ttsmagic-card-images"@,
        FileBucket::DeckPages => "ttsmagic-deck-page-images"@,
    }
}

impl FileBucket {
    /// The bucket for a file.
    pub fn for_key(key: &str) -> (r: Option<FileBucket>)
        ensures
            r == bucket_of(key@),
    {
        let chars = text::to_chars(key);
        match text::find_char(&chars, '/') {
            None => None,
            Some(slash) => {
                let folder = text::from_chars(&chars, 0, slash);
                assert(key@.subrange(0, slash as int) =~= key@.take(slash as int));
                if text::same_text(folder.as_str(), "cards") || text::same_text(folder.as_str(), "tokens") {
                    Some(FileBucket::CardImages)
                } else if text::same_text(folder.as_str(), "page") || text::same_text(
                    folder.as_str(),
                    "pages",
                ) {
                    Some(FileBucket::DeckPages)
                } else {
                    None
                }
            },
        }
    }

    /// The bucket's name.
    pub fn name(&self) -> (r: &'static str)
        ensures
            r@ == bucket_name(*self),
    {
        match self {
            FileBucket::CardImages => "ttsmagic-card-images",
            FileBucket::DeckPages => "ttsmagic-deck-page-images",
        }
    }
}

/// A file in object storage.
#[derive(Debug)]
pub struct MediaFile {
    pub bucket: FileBucket,
    pub key: String,
}

/// Where the files are served.
pub open spec fn files_url_base() -> Seq<char> {
    "https://ttsmagic.cards/files/"@
}

/// The URL at which a file is served.
pub open spec fn media_url(key: Seq<char>) -> Option<Seq<char>> {
    match urls::parsed_url(files_url_base()) {
        Some(base) => urls::url_joined(base, key),
        None => None,
    }
}

/// What stands from a name's last dot on.
pub open spec fn suffix_of(name: Seq<char>) -> Option<Seq<char>> {
    let dot = text::char_at_last(name, '.');
    if dot < 0 {
        None
    } else {
        Some(name.skip(dot))
    }
}

/// A name up to its last dot and behind it.
pub open spec fn split_extension(name: Seq<char>) -> (Seq<char>, Seq<char>) {
    let dot = text::char_at_last(name, '.');
    if dot < 0 {
        (name, Seq::empty())
    } else {
        (name.take(dot), name.skip(dot + 1))
    }
}

/// A name with some characters before its extension.
pub open spec fn renamed(name: Seq<char>, chars: Seq<char>) -> Seq<char> {
    let (prefix, ext) = split_extension(name);
    prefix + "_"@ + chars + "."@ + ext
}

/// How many random characters a name gets.
pub const RANDOM_LEN: usize = 8;

/// Whether a text is made of some lower-case letters.
pub open spec fn is_random(chars: Seq<char>) -> bool {
    chars.len() == RANDOM_LEN && forall|i: int| 0 <= i < chars.len() ==> 'a' <= #[trigger] chars[i] <= 'z'
}

/// `rand::Rng::gen_range` from the letter `a` to the letter `z`: one of the lower-case letters.
#[verifier::external_body]
fn random_letter() -> (r: char)
    ensures
        'a' <= r <= 'z',
{
    let mut rng = rand::thread_rng();
    rand::Rng::gen_range(&mut rng, b'a'..b'z' + 1) as char
}

/// Random lower-case letters.
pub fn random_letters() -> (r: String)
    ensures
        is_random(r@),
{
    let mut s = String::new();
    let mut i: usize = 0;
    while i < RANDOM_LEN
        invariant
            i <= RANDOM_LEN,
            s@.len() == i,
            forall|j: int| 0 <= j < i ==> 'a' <= #[trigger] s@[j] <= 'z',
        decreases RANDOM_LEN - i,
    {
        s.push(random_letter());
        i = i + 1;
    }
    s
}

/// A name with some characters before its extension.
pub fn rename(name: &str, chars: &str) -> (r: String)
    ensures
        r@ == renamed(name@, chars@),
{
    let c = text::to_chars(name);
    let (prefix, ext) = match text::rfind_char(&c, '.') {
        Some(dot) => {
            assert(dot < c.len());
            assert(name@.subrange(0, dot as int) =~= name@.take(dot as int));
            assert(name@.subrange(dot + 1, name@.len() as int) =~= name@.skip(dot + 1));
            (text::from_chars(&c, 0, dot), text::from_chars(&c, dot + 1, c.len()))
        },
        None => {
            let empty = String::new();
            assert(empty@ =~= Seq::empty());
            (name.to_string(), empty)
        },
    };
    let mut r = text::concat3(prefix.as_str(), "_", chars);
    r.append(".");
    r.append(ext.as_str());
    r
}

/// The search for a name under which no file is stored yet: the wanted name itself is tried first.
pub struct UploadName {
    pub name: String,
    pub key: String,
}

impl UploadName {
    /// Begins with the wanted name.
    pub fn new(name: String) -> (r: UploadName)
        ensures
            r.name == name,
            r.key == name,
    {
        UploadName { key: name.clone(), name }
    }

    /// Goes on to another name where a file is stored under the one that was tried. Says whether the
    /// search is over.
    pub fn tried(&mut self, stored: bool) -> (r: bool)
        ensures
            r == !stored,
            final(self).name == old(self).name,
            if stored {
                exists|chars: Seq<char>|
                    #[trigger] is_random(chars) && final(self).key@ == renamed(old(self).name@, chars)
            } else {
                final(self).key == old(self).key
            },
    {
        if stored {
            let chars = random_letters();
            assert(is_random(chars@));
            self.key = rename(self.name.as_str(), chars.as_str());
        }
        !stored
    }
}

impl MediaFile {
    /// The file with a name, where there is a bucket for it.
    pub fn named(name: &str) -> (r: Option<MediaFile>)
        ensures
            match r {
                Some(f) => bucket_of(name@) == Some(f.bucket) && f.key@ == name@,
                None => bucket_of(name@) is None,
            },
    {
        match FileBucket::for_key(name) {
            Some(bucket) => Some(MediaFile { bucket, key: name.to_string() }),
            None => None,
        }
    }

    /// The file's bucket and key.
    pub fn path(&self) -> (r: String)
        ensures
            r@ == bucket_name(self.bucket) + "/"@ + self.key@,
    {
        text::concat3(self.bucket.name(), "/", self.key.as_str())
    }

    /// The URL at which the file is served.
    pub fn url(&self) -> (r: Result<Url, UrlError>)
        ensures
            urls::is_outcome(r, media_url(self.key@)),
    {
        match Url::parse("https://ttsmagic.cards/files/") {
            Ok(base) => base.join(self.key.as_str()),
            Err(e) => Err(e),
        }
    }

    /// What a temporary file for this one ends with.
    pub fn suffix(&self) -> (r: Option<String>)
        ensures
            urls::opt_text(r) == suffix_of(self.key@),
    {
        let c = text::to_chars(self.key.as_str());
        match text::rfind_char(&c, '.') {
            Some(dot) => {
                assert(c@.subrange(dot as int, c@.len() as int) =~= c@.skip(dot as int));
                Some(text::from_chars(&c, dot, c.len()))
            },
            None => None,
        }
    }
}

/// What is to be done with a file on disk.
#[derive(Clone, Copy, Debug, PartialEq, Eq, Structural)]
pub enum UploadAction {
    /// Nothing: there is no bucket for it, or it is stored and may stay on disk.
    Skip,
    /// It is stored, and is to be deleted from disk.
    Delete,
    /// It is to be stored in a bucket, and deleted from disk after that or not.
    Upload { bucket: FileBucket, delete: bool },
}

/// What is to be done with a file on disk.
pub open spec fn action_for(key: Seq<char>, stored: bool, delete_after_upload: bool) -> UploadAction {
    match bucket_of(key) {
        None => UploadAction::Skip,
        Some(bucket) => if !stored {
            UploadAction::Upload { bucket, delete: delete_after_upload }
        } else if delete_after_upload {
            UploadAction::Delete
        } else {
            UploadAction::Skip
        },
    }
}

/// What is to be done with a file on disk.
pub fn upload_action(key: &str, stored: bool, delete_after_upload: bool) -> (r: UploadAction)
    ensures
        r == action_for(key@, stored, delete_after_upload),
{
    match FileBucket::for_key(key) {
        None => UploadAction::Skip,
        Some(bucket) => if !stored {
            UploadAction::Upload { bucket, delete: delete_after_upload }
        } else if delete_after_upload {
            UploadAction::Delete
        } else {
            UploadAction::Skip
        },
    }
}

/// A file is deleted from disk only where that is asked for and the file is stored, now or before.
pub proof fn deleted_files_are_stored(key: Seq<char>, stored: bool, delete_after_upload: bool)
    ensures
        action_for(key, stored, delete_after_upload) is Delete ==> stored && delete_after_upload,
        action_for(key, stored, delete_after_upload) matches UploadAction::Upload { delete, .. } ==> delete
            == delete_after_upload,
{
}

/// The first folder of a file says its bucket: pictures of cards and of tokens are kept in one, and pages in
/// another; for any other file there is none.
pub proof fn first_folder_says_bucket(folder: Seq<char>, rest: Seq<char>)
    requires
        !folder.contains('/'),
    ensures
        bucket_of(folder) is None,
        bucket_of(folder.push('/') + rest) == if folder == "cards"@ || folder == "tokens"@ {
            Some(FileBucket::CardImages)
        } else if folder == "page"@ || folder == "pages"@ {
            Some(FileBucket::DeckPages)
        } else {
            None
        },
{
    let key = folder.push('/') + rest;
    text::char_places(folder, '/');
    text::char_places(key, '/');
    let n = folder.len() as int;
    assert(key[n] == '/');
    let k = text::char_at_first(key, '/');
    if k < n {
        assert(folder[k] == key[k]);
    }
    assert(k == n);
    assert(key.take(n) =~= folder);
}

/// What a name ends with is what stands behind its last dot; some characters go before that dot, with a sign
/// that sets them off.
pub proof fn extension_stays(stem: Seq<char>, ending: Seq<char>, chars: Seq<char>)
    requires
        !ending.contains('.'),
    ensures
        renamed(stem.push('.') + ending, chars) == stem + "_"@ + chars + "."@ + ending,
        suffix_of(stem.push('.') + ending) == Some(seq!['.'] + ending),
        suffix_of(ending) is None,
        renamed(ending, chars) == ending + "_"@ + chars + "."@,
{
    let name = stem.push('.') + ending;
    text::char_places(name, '.');
    text::char_places(ending, '.');
    let n = stem.len() as int;
    assert(name[n] == '.');
    let k = text::char_at_last(name, '.');
    if k > n {
        assert(ending[k - n - 1] == name[k]);
    }
    assert(k == n);
    assert(name.take(n) =~= stem);
    assert(name.skip(n + 1) =~= ending);
    assert(name.skip(n) =~= seq!['.'] + ending);
    assert(ending + "_"@ + chars + "."@ + Seq::<char>::empty() =~= ending + "_"@ + chars + "."@);
}

/// A file for which there is a bucket is stored there where it is not stored yet; it is deleted from disk where
/// that is asked for, and a file without a bucket is left alone.
pub proof fn files_are_stored(key: Seq<char>, stored: bool, delete_after_upload: bool)
    ensures
        bucket_of(key) is None ==> action_for(key, stored, delete_after_upload) is Skip,
        bucket_of(key) is Some && !stored ==> action_for(key, stored, delete_after_upload) == (UploadAction::Upload {
            bucket: bucket_of(key)->0,
            delete: delete_after_upload,
        }),
        bucket_of(key) is Some && stored && delete_after_upload ==> action_for(key, stored, delete_after_upload)
            is Delete,
        stored && !delete_after_upload ==> action_for(key, stored, delete_after_upload) is Skip,
{
}

/// The two buckets have different names.
pub proof fn buckets_differ()
    ensures
        bucket_name(FileBucket::CardImages) != bucket_name(FileBucket::DeckPages),
{
    reveal_strlit("ttsmagic-card-images");
    reveal_strlit("ttsmagic-deck-page-images");
    assert("ttsmagic-card-images"@.len() != "ttsmagic-deck-page-images"@.len());
}

/// Random characters are eight lower-case letters.
pub proof fn random_characters_are_letters(chars: Seq<char>)
    ensures
        is_random(chars) <==> chars.len() == 8 && forall|i: int| 0 <= i < chars.len() ==> 'a' <= #[trigger] chars[i]
            <= 'z',
{
}

/// Files are served under their keys.
pub proof fn files_are_served_by_key(key: Seq<char>, base: Seq<char>)
    ensures
        urls::parsed_url("https://ttsmagic.cards/files/"@) == Some(base) ==> media_url(key) == urls::url_joined(
            base,
            key,
        ),
        urls::parsed_url("https://ttsmagic.cards/files/"@) is None ==> media_url(key) is None,
{
}

} // verus!
