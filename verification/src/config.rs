//! Where the database and Redis are.
use crate::text;
use vstd::prelude::*;

verus! {

/// The URL of the database.
pub fn database_url(user: &str, password: &str, host: &str, port: &str, name: &str) -> (r: String)
    ensures
        r@ == "postgresql://"@ + user@ + ":"@ + password@ + "@"@ + host@ + ":"@ + port@ + "/"@ + name@,
{
    let mut r = text::concat3("postgresql://", user, ":");
    r.append(password);
    r.append("@");
    r.append(host);
    r.append(":");
    r.append(port);
    r.append("/");
    r.append(name);
    r
}

/// The URL of Redis. A user or password that is missing is left empty.
pub fn redis_url(user: Option<&str>, password: Option<&str>, host: &str, port: &str) -> (r: String)
    ensures
        r@ == "redis://"@ + (match user {
            Some(u) => u@,
            None => ""@,
        }) + ":"@ + (match password {
            Some(p) => p@,
            None => ""@,
        }) + "@"@ + host@ + ":"@ + port@ + "/"@,
{
    let user = match user {
        Some(u) => u,
        None => "",
    };
    let password = match password {
        Some(p) => p,
        None => "",
    };
    let mut r = text::concat3("redis://", user, ":");
    r.append(password);
    r.append("@");
    r.append(host);
    r.append(":");
    r.append(port);
    r.append("/");
    r
}

} // verus!
