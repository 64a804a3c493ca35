//! The pages of the server.
use crate::text;
use crate::urls;
use crate::user::User;
use vstd::prelude::*;

verus! {

/// The page that a visitor sees first, as the session says.
pub fn home_page(user: &Option<User>) -> (r: &'static str)
    ensures
        r@ == if user is Some {
            "logged_in.html"@
        } else {
            "logged_out.html"@
        },
{
    match user {
        Some(_) => "logged_in.html",
        None => "logged_out.html",
    }
}

/// The type of the first page.
pub const HTML_TYPE: &'static str = "text/html; charset=utf-8";

/// The last of some parts of a path that names something.
pub open spec fn last_name(parts: Seq<Seq<char>>) -> Option<Seq<char>>
    decreases parts.len(),
{
    if parts.len() == 0 {
        None
    } else if parts.last() == ""@ || parts.last() == "."@ {
        last_name(parts.drop_last())
    } else if parts.last() == ".."@ {
        None
    } else {
        Some(parts.last())
    }
}

/// What stands behind the last dot of a path's last name; nothing where that dot comes first.
pub open spec fn extension_of(path: Seq<char>) -> Option<Seq<char>> {
    match last_name(text::split_text(path, "/"@)) {
        None => None,
        Some(name) => {
            let dot = text::char_at_last(name, '.');
            if dot <= 0 {
                None
            } else {
                Some(name.skip(dot + 1))
            }
        },
    }
}

/// The type of a file.
pub open spec fn type_of(path: Seq<char>) -> Seq<char> {
    let e = extension_of(path);
    if e == Some("css"@) {
        "text/css"@
    } else if e == Some("js"@) {
        "text/javascript"@
    } else if e == Some("wasm"@) {
        "application/wasm"@
    } else {
        "application/octet-stream"@
    }
}

fn find_name(parts: &Vec<String>) -> (r: Option<String>)
    ensures
        urls::opt_text(r) == last_name(text::texts(parts@)),
{
    let ghost all = text::texts(parts@);
    let mut n: usize = parts.len();
    assert(all.take(n as int) =~= all);
    while n > 0
        invariant
            n <= parts@.len(),
            all == text::texts(parts@),
            last_name(all) == last_name(all.take(n as int)),
        decreases n,
    {
        let part = parts[n - 1].as_str();
        proof {
            assert(all.take(n as int).last() == part@);
            assert(all.take(n as int).drop_last() =~= all.take(n - 1));
        }
        if text::same_text(part, "") || text::same_text(part, ".") {
            n = n - 1;
        } else if text::same_text(part, "..") {
            return None;
        } else {
            return Some(parts[n - 1].clone());
        }
    }
    None
}

/// What stands behind the last dot of a path's last name.
pub fn extension(path: &str) -> (r: Option<String>)
    ensures
        urls::opt_text(r) == extension_of(path@),
{
    proof {
        reveal_strlit("/");
    }
    match find_name(&text::split(path, "/")) {
        None => None,
        Some(name) => {
            let c = text::to_chars(name.as_str());
            match text::rfind_char(&c, '.') {
                None => None,
                Some(dot) => if dot == 0 {
                    None
                } else {
                    assert(dot < c.len());
                    assert(c@.subrange(dot + 1, c@.len() as int) =~= c@.skip(dot + 1));
                    Some(text::from_chars(&c, dot + 1, c.len()))
                },
            }
        },
    }
}

/// The type of a file.
pub fn static_file_type(path: &str) -> (r: &'static str)
    ensures
        r@ == type_of(path@),
{
    match extension(path) {
        Some(e) => if text::same_text(e.as_str(), "css") {
            "text/css"
        } else if text::same_text(e.as_str(), "js") {
            "text/javascript"
        } else if text::same_text(e.as_str(), "wasm") {
            "application/wasm"
        } else {
            "application/octet-stream"
        },
        None => "application/octet-stream",
    }
}

/// The last name of a path is its last part that is not empty and no dot; a path that ends with two dots has none.
pub proof fn last_part_is_the_name(parts: Seq<Seq<char>>, name: Seq<char>, behind: Seq<Seq<char>>)
    requires
        forall|i: int| 0 <= i < behind.len() ==> (#[trigger] behind[i]) == ""@ || behind[i] == "."@,
        name != ""@,
        name != "."@,
    ensures
        last_name(parts.push(name) + behind) == if name == ".."@ {
            None
        } else {
            Some(name)
        },
        last_name(behind) is None,
    decreases behind.len(),
{
    let all = parts.push(name) + behind;
    if behind.len() > 0 {
        let fewer = behind.drop_last();
        assert forall|i: int| 0 <= i < fewer.len() implies (#[trigger] fewer[i]) == ""@ || fewer[i] == "."@ by {
            assert(fewer[i] == behind[i]);
        }
        last_part_is_the_name(parts, name, fewer);
        assert(all.drop_last() =~= parts.push(name) + fewer);
        assert(all.last() == behind[behind.len() - 1]);
    } else {
        assert(all.last() == name);
    }
}

/// The extension of a file is what stands behind the last dot of its name, and a name without a dot, or with none
/// but at its start, has no extension.
pub proof fn extension_stands_behind_dot(path: Seq<char>, stem: Seq<char>, ending: Seq<char>)
    requires
        !ending.contains('.'),
    ensures
        stem.len() > 0 && last_name(text::split_text(path, "/"@)) == Some(stem.push('.') + ending) ==> extension_of(
            path,
        ) == Some(ending),
        last_name(text::split_text(path, "/"@)) == Some(ending) ==> extension_of(path) is None,
        last_name(text::split_text(path, "/"@)) == Some(seq!['.'] + ending) ==> extension_of(path) is None,
{
    let name = stem.push('.') + ending;
    let hidden = seq!['.'] + ending;
    text::char_places(name, '.');
    text::char_places(hidden, '.');
    text::char_places(ending, '.');
    let n = stem.len() as int;
    assert(name[n] == '.');
    let k = text::char_at_last(name, '.');
    if k > n {
        assert(ending[k - n - 1] == name[k]);
    }
    assert(name.skip(n + 1) =~= ending);
    assert(hidden[0] == '.');
    let h = text::char_at_last(hidden, '.');
    if h > 0 {
        assert(ending[h - 1] == hidden[h]);
    }
}

/// The extension of a file says its type.
pub proof fn extension_says_type(path: Seq<char>)
    ensures
        extension_of(path) == Some("css"@) ==> type_of(path) == "text/css"@,
        extension_of(path) == Some("js"@) ==> type_of(path) == "text/javascript"@,
        extension_of(path) == Some("wasm"@) ==> type_of(path) == "application/wasm"@,
        extension_of(path) != Some("css"@) && extension_of(path) != Some("js"@) && extension_of(path) != Some("wasm"@)
            ==> type_of(path) == "application/octet-stream"@,
{
    reveal_strlit("css");
    reveal_strlit("js");
    reveal_strlit("wasm");
    assert("css"@.len() == 3 && "js"@.len() == 2 && "wasm"@.len() == 4);
}

} // verus!
