//! The glossary index read from the PO files inside the game's ZIP archive.
use std::io::Read;
use vstd::prelude::*;
use crate::error::{AppError, AppResult};
use crate::po_file::{message_views, parse_po_messages, po_text_is_safe, po_text_safe, PoMessageView};
use crate::po_search::{entries_of_sources, PoFileIndex};
use crate::text::{concat4, has_prefix, lemma_prefix_of_concat, string_views};

verus! {

broadcast use vstd::string::group_string_axioms;

/// What the archive holds under one name: `None` where it has no such
/// member; `Some(None)` where the member cannot be read as text;
/// `Some(Some(text))` with its text.
pub type MemberView = Option<Option<Seq<char>>>;

/// The members a list of requested names gives, as plain values.
pub open spec fn member_views(v: Seq<Option<Result<String, String>>>) -> Seq<MemberView> {
    v.map_values(
        |m: Option<Result<String, String>>|
            match m {
                None => None,
                Some(Ok(t)) => Some(Some(t@)),
                Some(Err(_)) => Some(None),
            },
    )
}

/// What the zip crate reads from the archive `bytes` for each of `names`,
/// in order, or `None` where it cannot read the archive.
pub uninterp spec fn spec_zip_members(bytes: Seq<u8>, names: Seq<Seq<char>>) -> Option<Seq<MemberView>>;

/// Opens the archive with the zip crate's `ZipArchive::new` over the
/// bytes, and for each name looks the member up with `ZipArchive::by_name`
/// and reads it with `Read::read_to_string`. The members are named by
/// `spec_zip_members`; the texts of the errors are the crate's and are not
/// stated.
#[verifier::external_body]
fn read_zip_members(bytes: &[u8], names: &[String]) -> (res: Result<Vec<Option<Result<String, String>>>, String>)
    ensures
        match res {
            Ok(v) => spec_zip_members(bytes@, string_views(names@)) == Some(member_views(v@))
                && v@.len() == names@.len(),
            Err(_) => spec_zip_members(bytes@, string_views(names@)) is None,
        },
{
    let mut archive = zip::ZipArchive::new(std::io::Cursor::new(bytes)).map_err(|e| e.to_string())?;
    Ok(names.iter().map(|n| archive.by_name(n).ok().map(|mut f| {
        let mut s = String::new();
        f.read_to_string(&mut s).map(|_| s).map_err(|e| e.to_string())
    })).collect())
}

/// The messages of the members, in order: a missing member is skipped;
/// `None` where a member cannot be read or its text does not parse.
pub open spec fn member_messages(ms: Seq<MemberView>) -> Option<Seq<Seq<PoMessageView>>>
    decreases ms.len(),
{
    if ms.len() == 0 {
        Some(Seq::empty())
    } else {
        match member_messages(ms.drop_last()) {
            None => None,
            Some(prev) => match ms.last() {
                None => Some(prev),
                Some(None) => None,
                Some(Some(t)) => match crate::po_file::spec_po_messages(t) {
                    Some(m) => Some(prev.push(m)),
                    None => None,
                },
            },
        }
    }
}

/// Every text that is read before a member fails has the shape polib
/// reads without panicking.
pub open spec fn members_safe(ms: Seq<MemberView>) -> bool
    decreases ms.len(),
{
    if ms.len() == 0 {
        true
    } else {
        &&& members_safe(ms.drop_last())
        &&& (member_messages(ms.drop_last()) is None || match ms.last() {
            Some(Some(t)) => po_text_is_safe(t),
            _ => true,
        })
    }
}

/// Builds the glossary index from the members read for `names`, in
/// order: a missing member is skipped; a member that cannot be read, or
/// whose text polib rejects, gives a `PoProcessing` error.
pub fn index_from_members(names: &[String], members: &Vec<Option<Result<String, String>>>) -> (res: AppResult<PoFileIndex>)
    requires
        members@.len() == names@.len(),
        members_safe(member_views(members@)),
    ensures
        match member_messages(member_views(members@)) {
            Some(msgs) => res matches Ok(ix) && ix.wf() && ix.entries_view() == entries_of_sources(msgs),
            None => res matches Err(e) && e is PoProcessing,
        },
{
    let ghost ms = member_views(members@);
    let mut ix = PoFileIndex::empty();
    let ghost mut msgs: Seq<Seq<PoMessageView>> = Seq::empty();
    let mut i: usize = 0;
    assert(ms.take(0) =~= Seq::<MemberView>::empty());
    while i < members.len()
        invariant
            i <= members@.len(),
            members@.len() == names@.len(),
            ms == member_views(members@),
            members_safe(ms),
            ix.wf(),
            member_messages(ms.take(i as int)) == Some(msgs),
            ix.entries_view() == entries_of_sources(msgs),
        decreases members@.len() - i,
    {
        assert(ms.take(i + 1).drop_last() =~= ms.take(i as int));
        proof {
            lemma_safe_prefix(ms, i + 1);
        }
        match &members[i] {
            None => {},
            Some(Err(e)) => {
                proof {
                    lemma_messages_fail(ms, i + 1);
                }
                return Err(AppError::PoProcessing(concat4("failed to read '", names[i].as_str(), "': ", e.as_str())));
            },
            Some(Ok(text)) => {
                match parse_po_messages(text.as_str()) {
                    Ok(messages) => {
                        ix.add_messages(&messages);
                        let ghost prev = msgs;
                        proof {
                            msgs = msgs.push(message_views(messages@));
                        }
                        assert(msgs.drop_last() =~= prev);
                    },
                    Err(e) => {
                        proof {
                            lemma_messages_fail(ms, i + 1);
                        }
                        return Err(AppError::PoProcessing(concat4("failed to parse PO '", names[i].as_str(), "': ", e.as_str())));
                    },
                }
            },
        }
        i = i + 1;
    }
    assert(ms.take(members@.len() as int) =~= ms);
    Ok(ix)
}

/// The safety of all members gives that of every prefix.
proof fn lemma_safe_prefix(ms: Seq<MemberView>, k: int)
    requires
        0 <= k <= ms.len(),
        members_safe(ms),
    ensures
        members_safe(ms.take(k)),
    decreases ms.len() - k,
{
    if k == ms.len() {
        assert(ms.take(k) =~= ms);
    } else {
        lemma_safe_prefix(ms, k + 1);
        assert(ms.take(k + 1).drop_last() =~= ms.take(k));
    }
}

/// Once a prefix of the members fails, all of them fail.
proof fn lemma_messages_fail(ms: Seq<MemberView>, k: int)
    requires
        0 <= k <= ms.len(),
        member_messages(ms.take(k)) is None,
    ensures
        member_messages(ms) is None,
    decreases ms.len() - k,
{
    if k == ms.len() {
        assert(ms.take(k) =~= ms);
    } else {
        assert(ms.take(k + 1).drop_last() =~= ms.take(k));
        lemma_messages_fail(ms, k + 1);
    }
}

/// Whether every text read before a member fails has the shape polib reads.
fn members_are_safe(members: &Vec<Option<Result<String, String>>>) -> (res: bool)
    ensures
        res == members_safe(member_views(members@)),
{
    let ghost ms = member_views(members@);
    let mut i: usize = 0;
    let mut failed = false;
    assert(ms.take(0) =~= Seq::<MemberView>::empty());
    while i < members.len()
        invariant
            i <= members@.len(),
            ms == member_views(members@),
            members_safe(ms.take(i as int)),
            failed == (member_messages(ms.take(i as int)) is None),
        decreases members@.len() - i,
    {
        assert(ms.take(i + 1).drop_last() =~= ms.take(i as int));
        if !failed {
            match &members[i] {
                None => {},
                Some(Err(_)) => {
                    failed = true;
                },
                Some(Ok(text)) => {
                    if !po_text_safe(text.as_str()) {
                        proof {
                            lemma_unsafe_stays(ms, i + 1);
                        }
                        return false;
                    }
                    match parse_po_messages(text.as_str()) {
                        Ok(_) => {},
                        Err(_) => {
                            failed = true;
                        },
                    }
                },
            }
        }
        i = i + 1;
    }
    assert(ms.take(members@.len() as int) =~= ms);
    true
}

/// Once a prefix of the members is unsafe, all of them are.
proof fn lemma_unsafe_stays(ms: Seq<MemberView>, k: int)
    requires
        0 <= k <= ms.len(),
        !members_safe(ms.take(k)),
    ensures
        !members_safe(ms),
    decreases ms.len() - k,
{
    if k == ms.len() {
        assert(ms.take(k) =~= ms);
    } else {
        assert(ms.take(k + 1).drop_last() =~= ms.take(k));
        lemma_unsafe_stays(ms, k + 1);
    }
}

/// Builds the glossary index from the ZIP archive `zip_bytes` read from
/// `zip_path`, out of its members `po_files`, in order. An archive that
/// cannot be read gives a `ZipProcessing` error; a missing member is
/// skipped; a member that cannot be read, or whose text polib rejects,
/// gives a `PoProcessing` error. `None` where a text that would be parsed
/// has a shape on which polib panics.
pub fn po_index_from_zip(zip_path: &str, zip_bytes: &[u8], po_files: &[String]) -> (res: Option<
    AppResult<PoFileIndex>,
>)
    ensures
        match spec_zip_members(zip_bytes@, string_views(po_files@)) {
            None => res matches Some(Err(AppError::ZipProcessing(m))) && has_prefix(
                m@,
                "failed to read ZIP '"@ + zip_path@ + "': "@,
            ),
            Some(ms) => if members_safe(ms) {
                match member_messages(ms) {
                    Some(msgs) => res matches Some(Ok(ix)) && ix.wf() && ix.entries_view()
                        == entries_of_sources(msgs),
                    None => res matches Some(Err(e)) && e is PoProcessing,
                }
            } else {
                res is None
            },
        },
{
    let members = match read_zip_members(zip_bytes, po_files) {
        Ok(m) => m,
        Err(e) => {
            proof {
                lemma_prefix_of_concat("failed to read ZIP '"@ + zip_path@ + "': "@, e@);
            }
            return Some(Err(AppError::ZipProcessing(concat4("failed to read ZIP '", zip_path, "': ", e.as_str()))));
        },
    };
    if !members_are_safe(&members) {
        return None;
    }
    Some(index_from_members(po_files, &members))
}

} // verus!
