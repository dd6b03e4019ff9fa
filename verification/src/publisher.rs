//! The Redis side of publishing: the commands sent, and whether a build
//! was already published.
use vstd::prelude::*;
use crate::text::{owned, str_eq, string_views};

verus! {

broadcast use vstd::string::group_string_axioms;

/// A Redis command: its name and its arguments, in order.
pub struct RedisCommand {
    pub name: String,
    pub args: Vec<String>,
}

impl RedisCommand {
    /// The command as plain values.
    pub open spec fn view_pair(&self) -> (Seq<char>, Seq<Seq<char>>) {
        (self.name@, string_views(self.args@))
    }
}

/// Reads the last published build number: `GET key`.
pub fn read_build_command(key: &str) -> (res: RedisCommand)
    ensures
        res.view_pair() == ("GET"@, seq![key@]),
{
    let mut args: Vec<String> = Vec::new();
    args.push(owned(key));
    let c = RedisCommand { name: owned("GET"), args };
    assert(c.view_pair().1 =~= seq![key@]);
    c
}

/// Records `build` as the last published build number: `SET key build`.
pub fn mark_build_command(key: &str, build: &str) -> (res: RedisCommand)
    ensures
        res.view_pair() == ("SET"@, seq![key@, build@]),
{
    let mut args: Vec<String> = Vec::new();
    args.push(owned(key));
    args.push(owned(build));
    let c = RedisCommand { name: owned("SET"), args };
    assert(c.view_pair().1 =~= seq![key@, build@]);
    c
}

/// Publishes the text `payload` on `channel`: `PUBLISH channel payload`.
pub fn publish_command(channel: &str, payload: &str) -> (res: RedisCommand)
    ensures
        res.view_pair() == ("PUBLISH"@, seq![channel@, payload@]),
{
    let mut args: Vec<String> = Vec::new();
    args.push(owned(channel));
    args.push(owned(payload));
    let c = RedisCommand { name: owned("PUBLISH"), args };
    assert(c.view_pair().1 =~= seq![channel@, payload@]);
    c
}

/// The build was already published: the stored build number is `build`.
pub open spec fn already_published(stored: Option<Seq<char>>, build: Seq<char>) -> bool {
    stored == Some(build)
}

/// Whether the stored build number (none where the key is unset) is `build`.
pub fn is_stored_build(stored: &Option<String>, build: &str) -> (res: bool)
    ensures
        res == already_published(
            match stored {
                Some(s) => Some(s@),
                None => None,
            },
            build@,
        ),
{
    match stored {
        Some(s) => str_eq(s.as_str(), build),
        None => false,
    }
}

/// A build recorded as published is recognized as published, and no other
/// build is.
pub proof fn lemma_recorded_build_is_published(recorded: Seq<char>, other: Seq<char>)
    ensures
        already_published(Some(recorded), recorded),
        other != recorded ==> !already_published(Some(recorded), other),
        !already_published(None, other),
{
}

} // verus!
