//! The settings of the publisher, from the values of its environment
//! variables.
use vstd::prelude::*;
use crate::error::{AppError, AppResult};
use crate::models::AppConfig;
use crate::text::{chars_of, owned, string_views, trim, trimmed};

verus! {

broadcast use vstd::string::group_string_axioms;

/// The values of the environment variables the publisher reads, each
/// absent where the variable is unset (or not valid Unicode).
pub struct EnvSettings {
    pub rss_url: Option<String>,
    pub update_page_url: Option<String>,
    pub redis_url: Option<String>,
    pub redis_channel: Option<String>,
    pub redis_dedupe_key: Option<String>,
    pub llm_api_base: Option<String>,
    pub llm_api_key: Option<String>,
    pub llm_model: Option<String>,
    pub po_zip_path: Option<String>,
    pub po_zip_po_files: Option<String>,
}

/// The pieces of `s` still to come, when the piece `cur` has been read so
/// far, split at each `sep`.
pub open spec fn split_from(s: Seq<char>, sep: char, cur: Seq<char>) -> Seq<Seq<char>>
    decreases s.len(),
{
    if s.len() == 0 {
        seq![cur]
    } else if s[0] == sep {
        seq![cur] + split_from(s.drop_first(), sep, Seq::empty())
    } else {
        split_from(s.drop_first(), sep, cur.push(s[0]))
    }
}

/// The pieces of `s` between the occurrences of `sep`, as `str::split`
/// gives them (an empty text gives one empty piece).
pub open spec fn split_pieces(s: Seq<char>, sep: char) -> Seq<Seq<char>> {
    split_from(s, sep, Seq::empty())
}

/// The trimmed pieces that are not empty, in order.
pub open spec fn nonempty_trimmed(pieces: Seq<Seq<char>>) -> Seq<Seq<char>>
    decreases pieces.len(),
{
    if pieces.len() == 0 {
        Seq::empty()
    } else if trimmed(pieces.last()).len() > 0 {
        nonempty_trimmed(pieces.drop_last()).push(trimmed(pieces.last()))
    } else {
        nonempty_trimmed(pieces.drop_last())
    }
}

/// The PO paths of a comma-separated list: its pieces, trimmed, without
/// the empty ones.
pub open spec fn po_file_list(s: Seq<char>) -> Seq<Seq<char>> {
    nonempty_trimmed(split_pieces(s, ','))
}

/// The pieces of `s` between the occurrences of `sep`.
pub fn split_on(s: &str, sep: char) -> (res: Vec<String>)
    ensures
        string_views(res@) == split_pieces(s@, sep),
{
    let cs = chars_of(s);
    let n = cs.len();
    let mut out: Vec<String> = Vec::new();
    let mut start: usize = 0;
    let mut i: usize = 0;
    assert(cs@.skip(0) =~= cs@);
    assert(cs@.subrange(0, 0) =~= Seq::<char>::empty());
    assert(string_views(out@) + split_pieces(s@, sep) =~= split_pieces(s@, sep));
    while i < n
        invariant
            n == cs@.len(),
            cs@ == s@,
            start <= i <= n,
            string_views(out@) + split_from(cs@.skip(i as int), sep, cs@.subrange(start as int, i as int))
                == split_pieces(s@, sep),
        decreases n - i,
    {
        let c = cs[i];
        let ghost cur = cs@.subrange(start as int, i as int);
        assert(cs@.skip(i as int).drop_first() =~= cs@.skip(i + 1));
        assert(cs@.skip(i as int)[0] == c);
        if c == sep {
            let ghost before = string_views(out@);
            out.push(owned(s.substring_char(start, i)));
            assert(string_views(out@) =~= before + seq![cur]);
            start = i + 1;
            i = i + 1;
            assert(cs@.subrange(start as int, i as int) =~= Seq::<char>::empty());
        } else {
            i = i + 1;
            assert(cs@.subrange(start as int, i as int) =~= cur.push(c));
        }
    }
    assert(cs@.skip(n as int) =~= Seq::<char>::empty());
    let ghost before = string_views(out@);
    out.push(owned(s.substring_char(start, n)));
    assert(string_views(out@) =~= before + seq![cs@.subrange(start as int, n as int)]);
    out
}

/// The PO paths of a comma-separated list, trimmed, without empty ones.
pub fn parse_po_file_list(s: &str) -> (res: Vec<String>)
    ensures
        string_views(res@) == po_file_list(s@),
{
    let pieces = split_on(s, ',');
    let ghost ps = string_views(pieces@);
    let mut out: Vec<String> = Vec::new();
    let mut i: usize = 0;
    assert(ps.take(0) =~= Seq::<Seq<char>>::empty());
    assert(string_views(out@) =~= Seq::<Seq<char>>::empty());
    while i < pieces.len()
        invariant
            i <= pieces@.len(),
            ps == string_views(pieces@),
            string_views(out@) == nonempty_trimmed(ps.take(i as int)),
        decreases pieces@.len() - i,
    {
        assert(ps.take(i + 1).drop_last() =~= ps.take(i as int));
        assert(ps.take(i + 1).last() == pieces@[i as int]@);
        let t = trim(pieces[i].as_str());
        if !t.as_str().is_empty() {
            let ghost before = string_views(out@);
            out.push(t);
            assert(string_views(out@) =~= before.push(out@.last()@));
        }
        i = i + 1;
    }
    assert(ps.take(pieces@.len() as int) =~= ps);
    out
}

/// The value of a variable, or `default` where it is unset.
pub open spec fn or_default(v: Option<String>, default: Seq<char>) -> Seq<char> {
    match v {
        Some(s) => s@,
        None => default,
    }
}

fn value_or(v: &Option<String>, default: &str) -> (res: String)
    ensures
        res@ == or_default(*v, default@),
{
    match v {
        Some(s) => s.clone(),
        None => owned(default),
    }
}

/// The text of the error for a missing PO list.
pub open spec fn po_files_required_text() -> Seq<char> {
    "PO_ZIP_PO_FILES is required (comma-separated PO paths inside the ZIP, e.g. scripts/languages/chinese_s.po)"@
}

/// The settings given by the environment values `env`: each optional
/// variable falls back to its default; `LLM_API_BASE`, `LLM_API_KEY`,
/// `PO_ZIP_PATH` and `PO_ZIP_PO_FILES` are required, checked in that
/// order, and the PO list must name at least one path.
pub fn build_config(env: &EnvSettings) -> (res: AppResult<AppConfig>)
    ensures
        match res {
            Ok(c) => {
                &&& c.rss_url@ == or_default(
                    env.rss_url,
                    "https://forums.kleientertainment.com/rss/6-dont-starve-together-updates.xml/"@,
                )
                &&& c.update_page_url@ == or_default(
                    env.update_page_url,
                    "https://forums.kleientertainment.com/game-updates/dst/"@,
                )
                &&& c.redis_url@ == or_default(env.redis_url, "redis://127.0.0.1:6379"@)
                &&& c.redis_channel@ == or_default(env.redis_channel, "dst-updates"@)
                &&& c.redis_dedupe_key@ == or_default(env.redis_dedupe_key, "dst:last_build"@)
                &&& env.llm_api_base matches Some(b) && c.llm_api_base@ == b@
                &&& env.llm_api_key matches Some(k) && c.llm_api_key@ == k@
                &&& c.llm_model@ == or_default(env.llm_model, "gpt-4o"@)
                &&& env.po_zip_path matches Some(p) && c.po_zip_path@ == p@
                &&& env.po_zip_po_files matches Some(f) && string_views(c.po_zip_po_files@)
                    == po_file_list(f@)
                &&& c.po_zip_po_files@.len() > 0
            },
            Err(AppError::Config(m)) => {
                ||| env.llm_api_base is None && m@ == "LLM_API_BASE is required"@
                ||| env.llm_api_base is Some && env.llm_api_key is None && m@
                    == "LLM_API_KEY is required"@
                ||| env.llm_api_base is Some && env.llm_api_key is Some && env.po_zip_path is None
                    && m@ == "PO_ZIP_PATH is required"@
                ||| env.llm_api_base is Some && env.llm_api_key is Some && env.po_zip_path is Some
                    && env.po_zip_po_files is None && m@ == po_files_required_text()
                ||| env.llm_api_base is Some && env.llm_api_key is Some && env.po_zip_path is Some
                    && (env.po_zip_po_files matches Some(f) && po_file_list(f@).len() == 0)
                    && m@ == "PO_ZIP_PO_FILES must contain at least one PO file path"@
            },
            Err(_) => false,
        },
{
    let rss_url = value_or(
        &env.rss_url,
        "https://forums.kleientertainment.com/rss/6-dont-starve-together-updates.xml/",
    );
    let update_page_url = value_or(
        &env.update_page_url,
        "https://forums.kleientertainment.com/game-updates/dst/",
    );
    let redis_url = value_or(&env.redis_url, "redis://127.0.0.1:6379");
    let redis_channel = value_or(&env.redis_channel, "dst-updates");
    let redis_dedupe_key = value_or(&env.redis_dedupe_key, "dst:last_build");
    let llm_api_base = match &env.llm_api_base {
        Some(v) => v.clone(),
        None => {
            return Err(AppError::Config(owned("LLM_API_BASE is required")));
        },
    };
    let llm_api_key = match &env.llm_api_key {
        Some(v) => v.clone(),
        None => {
            return Err(AppError::Config(owned("LLM_API_KEY is required")));
        },
    };
    let llm_model = value_or(&env.llm_model, "gpt-4o");
    let po_zip_path = match &env.po_zip_path {
        Some(v) => v.clone(),
        None => {
            return Err(AppError::Config(owned("PO_ZIP_PATH is required")));
        },
    };
    let po_zip_po_files = match &env.po_zip_po_files {
        Some(v) => parse_po_file_list(v.as_str()),
        None => {
            return Err(
                AppError::Config(
                    owned(
                        "PO_ZIP_PO_FILES is required (comma-separated PO paths inside the ZIP, e.g. scripts/languages/chinese_s.po)",
                    ),
                ),
            );
        },
    };
    if po_zip_po_files.len() == 0 {
        return Err(AppError::Config(owned("PO_ZIP_PO_FILES must contain at least one PO file path")));
    }
    Ok(
        AppConfig {
            rss_url,
            update_page_url,
            redis_url,
            redis_channel,
            redis_dedupe_key,
            llm_api_base,
            llm_api_key,
            llm_model,
            po_zip_path,
            po_zip_po_files,
        },
    )
}

} // verus!
