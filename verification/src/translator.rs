//! Translation of an announcement with a language model: the prompts,
//! the glossary searches the model asks for, and the steps of the exchange.
use vstd::prelude::*;
use crate::error::{AppError, AppResult};
use crate::models::{PoSearchResult, PoTranslationEntry, TranslatedAnnouncement, pairs_of};
use crate::po_search::{Pair, PoFileIndex, join_strings, joined, search_spec};
use crate::text::{concat2, concat3, has_prefix, lemma_prefix_of_concat, owned, str_eq, string_views};

verus! {

broadcast use vstd::string::group_string_axioms;

/// The instructions given to the model with every request.
pub open spec fn system_prompt_spec() -> Seq<char> {
    SYSTEM_PROMPT_TEXT@
}

/// The instructions given to the model with every request.
pub fn system_prompt() -> (res: &'static str)
    ensures
        res@ == system_prompt_spec(),
{
    SYSTEM_PROMPT_TEXT
}

/// The instructions given to the model.
pub const SYSTEM_PROMPT_TEXT: &'static str = "\
你是一个专业的《饥荒联机版》(Don't Starve Together) 本地化翻译助手。
你的任务是将英文更新公告翻译成简体中文。

要求：
1. 翻译必须准确、通顺，符合游戏公告的语气。
2. 游戏内专有术语、物品名称、技能名称、状态名称等与官方中文翻译完全一致。
3. 你可以使用 `search_po_terms` 工具查询术语的官方中文译名。
   - 在开始翻译前，请先将公告中所有你认为属于游戏专有术语的词或短语提取出来，调用该工具查询。
   - 如果工具返回了多个术语，翻译时务必使用工具给出的翻译。
   - 如果某个术语工具未返回结果，可使用合理的意译并在译文后以括号标注英文原文。
4. 输出为 Markdown 格式，保持分段与列表结构清晰。
5. 最终只输出翻译后的中文公告，不要添加额外解释。";

/// The first request: the announcement to translate.
pub open spec fn user_prompt_spec(body: Seq<char>) -> Seq<char> {
    "请将以下《饥荒联机版》更新公告翻译成中文。\n公告内容：\n"@ + body
}

/// The first request: the announcement to translate.
pub fn build_user_prompt(body: &str) -> (res: String)
    ensures
        res@ == user_prompt_spec(body@),
{
    concat2("请将以下《饥荒联机版》更新公告翻译成中文。\n公告内容：\n", body)
}

/// The name of the glossary tool offered to the model.
pub fn search_tool_name() -> (res: &'static str)
    ensures
        res@ == "search_po_terms"@,
{
    "search_po_terms"
}

/// What the glossary tool does, as the model reads it.
pub fn search_tool_description() -> (res: &'static str)
    ensures
        res@ == "查询游戏术语的官方中文译名。在游戏 PO 本地化文件中搜索指定英文术语，返回匹配的中文翻译条目。"@,
{
    "查询游戏术语的官方中文译名。在游戏 PO 本地化文件中搜索指定英文术语，返回匹配的中文翻译条目。"
}

/// The JSON schema of the glossary tool's arguments: an object whose
/// required `terms` is an array of strings.
pub fn search_tool_parameters() -> (res: &'static str)
    ensures
        res@ == "{\"type\":\"object\",\"properties\":{\"terms\":{\"type\":\"array\",\"items\":{\"type\":\"string\"},\"description\":\"需要查询的英文术语列表，可同时查询多个术语\"}},\"required\":[\"terms\"]}"@,
{
    "{\"type\":\"object\",\"properties\":{\"terms\":{\"type\":\"array\",\"items\":{\"type\":\"string\"},\"description\":\"需要查询的英文术语列表，可同时查询多个术语\"}},\"required\":[\"terms\"]}"
}

/// A tool call the model made: its id, the tool's name and its JSON arguments.
pub struct ToolCall {
    pub id: String,
    pub name: String,
    pub arguments: String,
}

impl ToolCall {
    /// A copy of the call.
    pub fn copy(&self) -> (res: ToolCall)
        ensures
            res.id@ == self.id@,
            res.name@ == self.name@,
            res.arguments@ == self.arguments@,
    {
        ToolCall { id: self.id.clone(), name: self.name.clone(), arguments: self.arguments.clone() }
    }
}

/// What serde_json reads from `arguments` as a `Value`: `None` where it
/// reports an error; else, under the key `key`, `None` where that is not
/// an array, else the text of each element that is a string (`None` for
/// the others).
pub uninterp spec fn spec_json_string_items(arguments: Seq<char>, key: Seq<char>) -> Option<Option<Seq<Option<Seq<char>>>>>;

/// Calls `serde_json::from_str` to read `arguments` as a `serde_json::Value`,
/// then indexes it by `key` and reads the element with `Value::as_array`
/// and each item with `Value::as_str`. The result is named by
/// `spec_json_string_items`; the text of an error is serde_json's and is
/// not stated.
#[verifier::external_body]
fn json_string_items(arguments: &str, key: &str) -> (res: Result<Option<Vec<Option<String>>>, String>)
    ensures
        match res {
            Ok(o) => spec_json_string_items(arguments@, key@) == Some(
                match o {
                    Some(v) => Some(v@.map_values(|x: Option<String>| match x {
                        Some(s) => Some(s@),
                        None => None,
                    })),
                    None => None,
                },
            ),
            Err(_) => spec_json_string_items(arguments@, key@) is None,
        },
{
    match serde_json::from_str::<serde_json::Value>(arguments) {
        Ok(v) => Ok(v[key].as_array().map(|a| a.iter().map(|x| x.as_str().map(String::from)).collect())),
        Err(e) => Err(e.to_string()),
    }
}

/// The texts present, in order.
pub open spec fn present(items: Seq<Option<Seq<char>>>) -> Seq<Seq<char>>
    decreases items.len(),
{
    if items.len() == 0 {
        Seq::empty()
    } else {
        match items.last() {
            Some(t) => present(items.drop_last()).push(t),
            None => present(items.drop_last()),
        }
    }
}

/// The texts present in two lists, one after the other, are those of the
/// first followed by those of the second; a present text is kept and an
/// absent one dropped.
pub proof fn lemma_present_concat(a: Seq<Option<Seq<char>>>, b: Seq<Option<Seq<char>>>)
    ensures
        present(a + b) == present(a) + present(b),
        forall|t: Seq<char>| present(seq![Some(t)]) == #[trigger] seq![t],
        present(seq![None::<Seq<char>>]) == Seq::<Seq<char>>::empty(),
    decreases b.len(),
{
    assert(present(Seq::<Option<Seq<char>>>::empty()) == Seq::<Seq<char>>::empty());
    assert forall|t: Seq<char>| present(seq![Some(t)]) == #[trigger] seq![t] by {
        assert(seq![Some(t)].drop_last() =~= Seq::<Option<Seq<char>>>::empty());
        assert(seq![Some(t)].last() == Some(t));
        assert(Seq::<Seq<char>>::empty().push(t) =~= seq![t]);
    }
    assert(seq![None::<Seq<char>>].drop_last() =~= Seq::<Option<Seq<char>>>::empty());
    assert(seq![None::<Seq<char>>].last() == None::<Seq<char>>);
    if b.len() == 0 {
        assert(a + b =~= a);
        assert(present(a) + present(b) =~= present(a));
    } else {
        assert((a + b).drop_last() =~= a + b.drop_last());
        assert((a + b).last() == b.last());
        lemma_present_concat(a, b.drop_last());
        match b.last() {
            Some(t) => {
                assert((present(a) + present(b.drop_last())).push(t) =~= present(a) + present(b.drop_last()).push(t));
            },
            None => {},
        }
    }
}

/// The terms of the arguments of a glossary call: the strings of its
/// `terms` array (none where it has no such array), or `None` where the
/// arguments are not JSON.
pub open spec fn call_terms(arguments: Seq<char>) -> Option<Seq<Seq<char>>> {
    match spec_json_string_items(arguments, "terms"@) {
        None => None,
        Some(None) => Some(Seq::empty()),
        Some(Some(items)) => Some(present(items)),
    }
}

/// The terms of the arguments of a glossary call.
fn terms_of_arguments(arguments: &str) -> (res: Result<Vec<String>, String>)
    ensures
        match res {
            Ok(v) => call_terms(arguments@) == Some(string_views(v@)),
            Err(_) => call_terms(arguments@) is None,
        },
{
    match json_string_items(arguments, "terms") {
        Err(e) => Err(e),
        Ok(None) => {
            let out: Vec<String> = Vec::new();
            assert(string_views(out@) =~= Seq::<Seq<char>>::empty());
            Ok(out)
        },
        Ok(Some(items)) => {
            let ghost iv = items@.map_values(|x: Option<String>| match x {
                Some(s) => Some(s@),
                None => None,
            });
            let mut out: Vec<String> = Vec::new();
            let mut i: usize = 0;
            assert(iv.take(0) =~= Seq::<Option<Seq<char>>>::empty());
            assert(string_views(out@) =~= Seq::<Seq<char>>::empty());
            while i < items.len()
                invariant
                    i <= items@.len(),
                    iv == items@.map_values(|x: Option<String>| match x {
                        Some(s) => Some(s@),
                        None => None,
                    }),
                    string_views(out@) == present(iv.take(i as int)),
                decreases items@.len() - i,
            {
                assert(iv.take(i + 1).drop_last() =~= iv.take(i as int));
                match &items[i] {
                    Some(s) => {
                        let ghost before = string_views(out@);
                        out.push(s.clone());
                        assert(string_views(out@) =~= before.push(s@));
                    },
                    None => {},
                }
                i = i + 1;
            }
            assert(iv.take(items@.len() as int) =~= iv);
            Ok(out)
        },
    }
}

/// A tool call as plain values: (id, name, arguments).
pub type CallView = (Seq<char>, Seq<char>, Seq<char>);

/// The tool calls as plain values.
pub open spec fn call_views(v: Seq<ToolCall>) -> Seq<CallView> {
    v.map_values(|c: ToolCall| (c.id@, c.name@, c.arguments@))
}

/// The terms the model asked the glossary for, over all its calls of the
/// glossary tool in order (calls of other tools search nothing), or `None`
/// where the arguments of one of them are not JSON.
pub open spec fn searched_terms(calls: Seq<CallView>) -> Option<Seq<Seq<char>>>
    decreases calls.len(),
{
    if calls.len() == 0 {
        Some(Seq::empty())
    } else {
        match searched_terms(calls.drop_last()) {
            None => None,
            Some(before) => if calls.last().1 == "search_po_terms"@ {
                match call_terms(calls.last().2) {
                    Some(ts) => Some(before + ts),
                    None => None,
                }
            } else {
                Some(before)
            },
        }
    }
}

/// What one call asks the glossary for: the terms of its arguments for a
/// call of the glossary tool (`None` where they are not JSON), nothing for
/// a call of another tool.
pub proof fn lemma_searched_terms_one_call(c: CallView)
    ensures
        searched_terms(seq![c]) == if c.1 == "search_po_terms"@ {
            match call_terms(c.2) {
                Some(ts) => Some(ts),
                None => None,
            }
        } else {
            Some(Seq::<Seq<char>>::empty())
        },
{
    assert(seq![c].drop_last() =~= Seq::<CallView>::empty());
    assert(seq![c].last() == c);
    assert(searched_terms(seq![c].drop_last()) == Some(Seq::<Seq<char>>::empty()));
    if let Some(ts) = call_terms(c.2) {
        assert(Seq::<Seq<char>>::empty() + ts =~= ts);
    }
}

/// The terms asked for by two runs of calls, one after the other, are those
/// of the first run followed by those of the second; where the arguments
/// of a glossary call in either run are not JSON, there are none.
pub proof fn lemma_searched_terms_concat(a: Seq<CallView>, b: Seq<CallView>)
    ensures
        searched_terms(a + b) == match (searched_terms(a), searched_terms(b)) {
            (Some(x), Some(y)) => Some(x + y),
            _ => None,
        },
    decreases b.len(),
{
    if b.len() == 0 {
        assert(a + b =~= a);
        if let Some(x) = searched_terms(a) {
            assert(x + Seq::<Seq<char>>::empty() =~= x);
        }
    } else {
        assert((a + b).drop_last() =~= a + b.drop_last());
        assert((a + b).last() == b.last());
        lemma_searched_terms_concat(a, b.drop_last());
        if let (Some(x), Some(y0)) = (searched_terms(a), searched_terms(b.drop_last())) {
            if b.last().1 == "search_po_terms"@ {
                if let Some(ts) = call_terms(b.last().2) {
                    assert((x + y0) + ts =~= x + (y0 + ts));
                }
            }
        }
    }
}

/// The number of terms asked for by calls is the sum, over their glossary
/// calls, of the number of terms of each.
pub proof fn lemma_searched_terms_count(a: Seq<CallView>, b: Seq<CallView>)
    requires
        searched_terms(a) is Some,
        searched_terms(b) is Some,
    ensures
        searched_terms(a + b) is Some,
        searched_terms(a + b)->0.len() == searched_terms(a)->0.len() + searched_terms(b)->0.len(),
        forall|k: int| 0 <= k < searched_terms(a)->0.len() ==> #[trigger] searched_terms(a + b)->0[k] == searched_terms(a)->0[k],
        forall|k: int| 0 <= k < searched_terms(b)->0.len() ==> searched_terms(a + b)->0[searched_terms(a)->0.len() + k]
            == #[trigger] searched_terms(b)->0[k],
{
    lemma_searched_terms_concat(a, b);
}

/// The line of the glossary reference for one term: its candidates as
/// "original → translation", joined by a new line and two spaces, or a
/// note that no official translation was found.
pub open spec fn term_line(term: Seq<char>, cands: Seq<Pair>) -> Seq<char> {
    if cands.len() == 0 {
        term + " → (未找到官方翻译)"@
    } else {
        joined(pair_lines(cands), "\n  "@)
    }
}

/// Each pair as "original → translation".
pub open spec fn pair_lines(ps: Seq<Pair>) -> Seq<Seq<char>> {
    ps.map_values(|p: Pair| p.0 + " → "@ + p.1)
}

/// The line of the glossary reference for one search result.
pub fn tool_result_line(term: &str, result: &PoSearchResult) -> (res: String)
    ensures
        res@ == term_line(term@, pairs_of(result.candidates@)),
{
    if result.candidates.len() == 0 {
        concat2(term, " → (未找到官方翻译)")
    } else {
        let ghost ps = pairs_of(result.candidates@);
        let mut parts: Vec<String> = Vec::new();
        let mut i: usize = 0;
        while i < result.candidates.len()
            invariant
                i <= result.candidates@.len(),
                ps == pairs_of(result.candidates@),
                string_views(parts@) == pair_lines(ps.take(i as int)),
            decreases result.candidates@.len() - i,
        {
            let c: &PoTranslationEntry = &result.candidates[i];
            let ghost before = string_views(parts@);
            let piece = concat3(c.original.as_str(), " → ", c.translation.as_str());
            assert(ps[i as int] == c.pair());
            assert(piece@ == ps[i as int].0 + " → "@ + ps[i as int].1);
            let ghost pv = piece@;
            parts.push(piece);
            assert(string_views(parts@) =~= before.push(pv));
            assert(pair_lines(ps.take(i + 1)) =~= pair_lines(ps.take(i as int)).push(
                ps[i as int].0 + " → "@ + ps[i as int].1,
            ));
            i = i + 1;
        }
        assert(ps.take(ps.len() as int) =~= ps);
        join_strings(&parts, "\n  ")
    }
}

/// The answer to one tool call: the call's id and the answer's text.
pub struct ToolReply {
    pub call_id: String,
    pub content: String,
}

/// The answers as plain values: (call id, text).
pub open spec fn reply_views(v: Seq<ToolReply>) -> Seq<(Seq<char>, Seq<char>)> {
    v.map_values(|r: ToolReply| (r.call_id@, r.content@))
}

/// What the tool calls of one reply give: the search results, one per
/// searched term, and the answer to each call.
pub struct ToolOutcome {
    pub search_results: Vec<PoSearchResult>,
    pub replies: Vec<ToolReply>,
}

/// The search results match the terms, one for one, each with the
/// candidates the index gives for its term.
pub open spec fn results_match(rs: Seq<PoSearchResult>, ix: (Seq<crate::po_search::EntryView>, Map<Seq<u8>, Seq<usize>>, Map<Seq<u8>, Seq<usize>>), terms: Seq<Seq<char>>) -> bool {
    &&& rs.len() == terms.len()
    &&& forall|i: int| 0 <= i < rs.len() ==> (#[trigger] rs[i]).term@ == terms[i] && pairs_of(rs[i].candidates@)
        == search_spec(ix.0, ix.1, ix.2, terms[i])
}

/// The lines of the glossary reference for the terms.
pub open spec fn lines_for(ix: (Seq<crate::po_search::EntryView>, Map<Seq<u8>, Seq<usize>>, Map<Seq<u8>, Seq<usize>>), terms: Seq<Seq<char>>) -> Seq<Seq<char>> {
    terms.map_values(|t: Seq<char>| term_line(t, search_spec(ix.0, ix.1, ix.2, t)))
}

/// The index as its three views.
pub open spec fn index_views(index: &PoFileIndex) -> (Seq<crate::po_search::EntryView>, Map<Seq<u8>, Seq<usize>>, Map<Seq<u8>, Seq<usize>>) {
    (index.entries_view(), index.exact_view(), index.words_view())
}

/// The answer to a call of a tool other than the glossary: that the tool
/// is unknown.
pub open spec fn unknown_tool_reply(name: Seq<char>) -> Seq<char> {
    "unknown tool: "@ + name
}

/// The answer to one call: for a call of the glossary tool, the lines of
/// the glossary reference for its terms, joined by new lines; for a call
/// of another tool, that the tool is unknown. (A glossary call whose
/// arguments cannot be read gets no answer: the run stops with an error.)
pub open spec fn call_reply(c: CallView, ix: (Seq<crate::po_search::EntryView>, Map<Seq<u8>, Seq<usize>>, Map<Seq<u8>, Seq<usize>>)) -> Seq<char> {
    if c.1 == "search_po_terms"@ {
        match call_terms(c.2) {
            Some(ts) => joined(lines_for(ix, ts), "\n"@),
            None => Seq::empty(),
        }
    } else {
        unknown_tool_reply(c.1)
    }
}

/// The answers to the calls, one per call and in their order: each the
/// call's id and its answer.
pub open spec fn tool_replies(calls: Seq<CallView>, ix: (Seq<crate::po_search::EntryView>, Map<Seq<u8>, Seq<usize>>, Map<Seq<u8>, Seq<usize>>)) -> Seq<(Seq<char>, Seq<char>)>
    decreases calls.len(),
{
    if calls.len() == 0 {
        Seq::empty()
    } else {
        tool_replies(calls.drop_last(), ix).push((calls.last().0, call_reply(calls.last(), ix)))
    }
}

/// Every call is answered, in order: the answers are as many as the calls,
/// and the `k`-th carries the id of the `k`-th call.
pub proof fn lemma_tool_replies_answer_each_call(calls: Seq<CallView>, ix: (Seq<crate::po_search::EntryView>, Map<Seq<u8>, Seq<usize>>, Map<Seq<u8>, Seq<usize>>))
    ensures
        tool_replies(calls, ix).len() == calls.len(),
        forall|k: int| 0 <= k < calls.len() ==> #[trigger] tool_replies(calls, ix)[k] == (calls[k].0, call_reply(calls[k], ix)),
    decreases calls.len(),
{
    if calls.len() > 0 {
        lemma_tool_replies_answer_each_call(calls.drop_last(), ix);
        assert forall|k: int| 0 <= k < calls.len() implies #[trigger] tool_replies(calls, ix)[k] == (calls[k].0, call_reply(calls[k], ix)) by {
            if k < calls.len() - 1 {
                assert(calls.drop_last()[k] == calls[k]);
            }
        }
    }
}

/// Once the search of a prefix of the calls fails, the search of all fails.
proof fn lemma_searched_none(calls: Seq<CallView>, k: int)
    requires
        0 <= k <= calls.len(),
        searched_terms(calls.take(k)) is None,
    ensures
        searched_terms(calls) is None,
    decreases calls.len() - k,
{
    if k == calls.len() {
        assert(calls.take(k) =~= calls);
    } else {
        assert(calls.take(k + 1).drop_last() =~= calls.take(k));
        lemma_searched_none(calls, k + 1);
    }
}

/// The search results and answer lines for the terms of one glossary call.
fn search_call_terms(terms: &Vec<String>, index: &PoFileIndex) -> (res: (Vec<PoSearchResult>, Vec<String>))
    requires
        index.wf(),
    ensures
        results_match(res.0@, index_views(index), string_views(terms@)),
        string_views(res.1@) == lines_for(index_views(index), string_views(terms@)),
{
    let ghost ix = index_views(index);
    let ghost tv = string_views(terms@);
    let mut strs: Vec<&str> = Vec::new();
    let mut j: usize = 0;
    while j < terms.len()
        invariant
            j <= terms@.len(),
            strs@.len() == j,
            forall|q: int| 0 <= q < j ==> (#[trigger] strs@[q])@ == terms@[q]@,
        decreases terms@.len() - j,
    {
        strs.push(terms[j].as_str());
        j = j + 1;
    }
    let found = index.search_terms(strs.as_slice());
    let mut lines: Vec<String> = Vec::new();
    let mut j: usize = 0;
    assert(tv.take(0) =~= Seq::<Seq<char>>::empty());
    assert(string_views(lines@) =~= lines_for(ix, tv.take(0)));
    while j < found.len()
        invariant
            j <= found@.len(),
            found@.len() == terms@.len(),
            tv == string_views(terms@),
            ix == index_views(index),
            forall|q: int| 0 <= q < terms@.len() ==> (#[trigger] strs@[q])@ == terms@[q]@,
            strs@.len() == terms@.len(),
            forall|q: int|
                0 <= q < found@.len() ==> (#[trigger] found@[q]).term@ == strs@[q]@ && pairs_of(
                    found@[q].candidates@,
                ) == search_spec(ix.0, ix.1, ix.2, strs@[q]@),
            string_views(lines@) == lines_for(ix, tv.take(j as int)),
        decreases found@.len() - j,
    {
        let ghost before = string_views(lines@);
        let line = tool_result_line(terms[j].as_str(), &found[j]);
        lines.push(line);
        assert(lines_for(ix, tv.take(j + 1)) =~= lines_for(ix, tv.take(j as int)).push(
            term_line(tv[j as int], search_spec(ix.0, ix.1, ix.2, tv[j as int])),
        ));
        assert(string_views(lines@) =~= before.push(lines@.last()@));
        j = j + 1;
    }
    assert(tv.take(tv.len() as int) =~= tv);
    assert forall|q: int| 0 <= q < found@.len() implies (#[trigger] found@[q]).term@ == tv[q] && pairs_of(
        found@[q].candidates@,
    ) == search_spec(ix.0, ix.1, ix.2, tv[q]) by {
        assert(strs@[q]@ == terms@[q]@);
    }
    (found, lines)
}

/// Runs the tool calls of one reply, in order: for each term of each call
/// of the glossary tool, its search result; for every call, glossary or
/// not, one answer with its id. Glossary arguments that are not JSON give
/// an `LlmResponseParse` error.
pub fn run_tool_calls(calls: &Vec<ToolCall>, index: &PoFileIndex) -> (res: AppResult<ToolOutcome>)
    requires
        index.wf(),
    ensures
        match res {
            Ok(o) => searched_terms(call_views(calls@)) matches Some(ts) && results_match(
                o.search_results@,
                index_views(index),
                ts,
            ) && reply_views(o.replies@) == tool_replies(call_views(calls@), index_views(index))
                && o.replies@.len() == calls@.len() && forall|k: int| 0 <= k < calls@.len()
                ==> (#[trigger] o.replies@[k]).call_id@ == calls@[k].id@,
            Err(e) => searched_terms(call_views(calls@)) is None && (e matches AppError::LlmResponseParse(m)
                && has_prefix(m@, "failed to parse tool args: "@)),
        },
{
    let ghost cs = call_views(calls@);
    let ghost ix = index_views(index);
    let mut results: Vec<PoSearchResult> = Vec::new();
    let mut replies: Vec<ToolReply> = Vec::new();
    let ghost mut ts: Seq<Seq<char>> = Seq::empty();
    let mut k: usize = 0;
    assert(cs.take(0) =~= Seq::<CallView>::empty());
    assert(reply_views(replies@) =~= tool_replies(cs.take(0), ix));
    while k < calls.len()
        invariant
            k <= calls@.len(),
            cs == call_views(calls@),
            ix == index_views(index),
            index.wf(),
            searched_terms(cs.take(k as int)) == Some(ts),
            results_match(results@, ix, ts),
            reply_views(replies@) == tool_replies(cs.take(k as int), ix),
        decreases calls@.len() - k,
    {
        assert(cs.take(k + 1).drop_last() =~= cs.take(k as int));
        assert(cs.take(k + 1).last() == cs[k as int]);
        let call = &calls[k];
        if str_eq(call.name.as_str(), "search_po_terms") {
            match terms_of_arguments(call.arguments.as_str()) {
                Err(e) => {
                    proof {
                        lemma_searched_none(cs, k + 1);
                        lemma_prefix_of_concat("failed to parse tool args: "@, e@);
                    }
                    return Err(AppError::LlmResponseParse(concat2("failed to parse tool args: ", e.as_str())));
                },
                Ok(terms) => {
                    let ghost tv = string_views(terms@);
                    let (mut found, lines) = search_call_terms(&terms, index);
                    let content = join_strings(&lines, "\n");
                    let ghost rv0 = reply_views(replies@);
                    replies.push(ToolReply { call_id: call.id.clone(), content });
                    assert(reply_views(replies@) =~= rv0.push((cs[k as int].0, call_reply(cs[k as int], ix))));
                    let ghost r0 = results@;
                    let ghost f0 = found@;
                    results.append(&mut found);
                    proof {
                        ts = ts + tv;
                        assert forall|q: int| 0 <= q < results@.len() implies (#[trigger] results@[q]).term@
                            == ts[q] && pairs_of(results@[q].candidates@) == search_spec(ix.0, ix.1, ix.2, ts[q]) by {
                            if q < r0.len() {
                                assert(results@[q] == r0[q]);
                            } else {
                                assert(results@[q] == f0[q - r0.len()]);
                                assert(ts[q] == tv[q - r0.len()]);
                            }
                        }
                    }
                },
            }
        } else {
            let ghost rv0 = reply_views(replies@);
            replies.push(ToolReply { call_id: call.id.clone(), content: concat2("unknown tool: ", call.name.as_str()) });
            assert(reply_views(replies@) =~= rv0.push((cs[k as int].0, call_reply(cs[k as int], ix))));
        }
        k = k + 1;
    }
    assert(cs.take(calls@.len() as int) =~= cs);
    proof {
        lemma_tool_replies_answer_each_call(cs, ix);
        assert forall|k: int| 0 <= k < calls@.len() implies (#[trigger] replies@[k]).call_id@ == calls@[k].id@ by {
            assert(reply_views(replies@)[k] == tool_replies(cs, ix)[k]);
            assert(cs[k] == (calls@[k].id@, calls@[k].name@, calls@[k].arguments@));
        }
    }
    Ok(ToolOutcome { search_results: results, replies })
}

/// A message of the conversation with the model.
pub enum ChatMessage {
    /// The instructions.
    System(String),
    /// A request.
    User(String),
    /// The model's tool calls.
    AssistantToolCalls(Vec<ToolCall>),
    /// The answer to a tool call.
    Tool { call_id: String, content: String },
}

/// A message as plain values.
pub enum MessageView {
    System(Seq<char>),
    User(Seq<char>),
    AssistantToolCalls(Seq<CallView>),
    Tool(Seq<char>, Seq<char>),
}

impl View for ChatMessage {
    type V = MessageView;

    open spec fn view(&self) -> MessageView {
        match self {
            ChatMessage::System(t) => MessageView::System(t@),
            ChatMessage::User(t) => MessageView::User(t@),
            ChatMessage::AssistantToolCalls(cs) => MessageView::AssistantToolCalls(call_views(cs@)),
            ChatMessage::Tool { call_id, content } => MessageView::Tool(call_id@, content@),
        }
    }
}

/// The messages as plain values.
pub open spec fn chat_views(v: Seq<ChatMessage>) -> Seq<MessageView> {
    v.map_values(|m: ChatMessage| m@)
}

/// The answers to tool calls as messages.
pub open spec fn reply_messages(rs: Seq<(Seq<char>, Seq<char>)>) -> Seq<MessageView> {
    rs.map_values(|r: (Seq<char>, Seq<char>)| MessageView::Tool(r.0, r.1))
}

/// A copy of the tool calls.
fn copy_calls(calls: &Vec<ToolCall>) -> (res: Vec<ToolCall>)
    ensures
        call_views(res@) == call_views(calls@),
{
    let mut out: Vec<ToolCall> = Vec::new();
    let mut i: usize = 0;
    while i < calls.len()
        invariant
            i <= calls@.len(),
            call_views(out@) == call_views(calls@).take(i as int),
        decreases calls@.len() - i,
    {
        let ghost before = call_views(out@);
        out.push(calls[i].copy());
        assert(call_views(out@) =~= before.push(call_views(calls@)[i as int]));
        i = i + 1;
    }
    assert(call_views(calls@).take(calls@.len() as int) =~= call_views(calls@));
    out
}

/// A copy of the messages.
fn copy_messages(ms: &Vec<ChatMessage>) -> (res: Vec<ChatMessage>)
    ensures
        chat_views(res@) == chat_views(ms@),
{
    let mut out: Vec<ChatMessage> = Vec::new();
    let mut i: usize = 0;
    while i < ms.len()
        invariant
            i <= ms@.len(),
            chat_views(out@) == chat_views(ms@).take(i as int),
        decreases ms@.len() - i,
    {
        let ghost before = chat_views(out@);
        let m = match &ms[i] {
            ChatMessage::System(t) => ChatMessage::System(t.clone()),
            ChatMessage::User(t) => ChatMessage::User(t.clone()),
            ChatMessage::AssistantToolCalls(cs) => ChatMessage::AssistantToolCalls(copy_calls(cs)),
            ChatMessage::Tool { call_id, content } => ChatMessage::Tool {
                call_id: call_id.clone(),
                content: content.clone(),
            },
        };
        out.push(m);
        assert(chat_views(out@) =~= before.push(chat_views(ms@)[i as int]));
        i = i + 1;
    }
    assert(chat_views(ms@).take(ms@.len() as int) =~= chat_views(ms@));
    out
}

/// Where a translation stands.
pub enum TranslationPhase {
    AwaitingTerms,
    AwaitingTranslation,
    Finished,
}

/// A reply of the model: none where it returned no choice; else the tool
/// calls of its first choice (none where it made none) and its text.
pub enum LlmReply {
    NoChoice,
    Choice { tool_calls: Vec<ToolCall>, content: Option<String> },
}

/// What to do next in a translation.
pub enum TranslateAction {
    /// Ask the model, with the whole conversation so far; offering the
    /// glossary tool or not.
    Ask { messages: Vec<ChatMessage>, offer_tools: bool },
    /// The translation is done.
    Done(TranslatedAnnouncement),
}

/// The text of a reply, empty where it has none.
pub open spec fn reply_text(content: Option<String>) -> Seq<char> {
    match content {
        Some(c) => c@,
        None => Seq::empty(),
    }
}

/// A translation in progress: the announcement, where it stands, the
/// conversation so far and the glossary searches made.
pub struct Translation {
    announcement: String,
    phase: TranslationPhase,
    conversation: Vec<ChatMessage>,
    search_results: Vec<PoSearchResult>,
}

impl Translation {
    /// The announcement being translated.
    pub closed spec fn text(&self) -> Seq<char> {
        self.announcement@
    }

    /// Where the translation stands.
    pub closed spec fn stage(&self) -> TranslationPhase {
        self.phase
    }

    /// The conversation so far.
    pub closed spec fn conversation(&self) -> Seq<MessageView> {
        chat_views(self.conversation@)
    }

    /// The glossary searches made so far.
    pub closed spec fn results(&self) -> Seq<PoSearchResult> {
        self.search_results@
    }

    /// Starts the translation of `announcement`: the conversation opens
    /// with the instructions and the request for the announcement, and the
    /// glossary tool is offered.
    pub fn start(announcement: &str) -> (res: (Translation, TranslateAction))
        ensures
            res.0.text() == announcement@,
            res.0.stage() == TranslationPhase::AwaitingTerms,
            res.0.results() == Seq::<PoSearchResult>::empty(),
            res.0.conversation() == seq![
                MessageView::System(system_prompt_spec()),
                MessageView::User(user_prompt_spec(announcement@)),
            ],
            res.1 matches TranslateAction::Ask { messages, offer_tools } && chat_views(messages@)
                == res.0.conversation() && offer_tools,
    {
        let mut conversation: Vec<ChatMessage> = Vec::new();
        conversation.push(ChatMessage::System(owned(system_prompt())));
        conversation.push(ChatMessage::User(build_user_prompt(announcement)));
        let messages = copy_messages(&conversation);
        let t = Translation {
            announcement: owned(announcement),
            phase: TranslationPhase::AwaitingTerms,
            conversation,
            search_results: Vec::new(),
        };
        assert(t.conversation() =~= seq![
            MessageView::System(system_prompt_spec()),
            MessageView::User(user_prompt_spec(announcement@)),
        ]);
        (t, TranslateAction::Ask { messages, offer_tools: true })
    }

    /// Takes the model's reply. To the first: without a choice, an
    /// `LlmResponseParse` error; with no tool call, the reply is the
    /// translation; else the calls are run, and the conversation goes on
    /// with the model's calls and one answer per call, in order, without
    /// the tool.
    /// To the second: without a choice, an `LlmResponseParse` error; else
    /// the reply is the translation. The text of a translation is that of
    /// the reply, empty where it has none. An error leaves the translation
    /// as it was.
    pub fn on_reply(&mut self, reply: LlmReply, index: &PoFileIndex) -> (res: AppResult<TranslateAction>)
        requires
            index.wf(),
            !(old(self).stage() is Finished),
        ensures
            final(self).text() == old(self).text(),
            res is Err ==> final(self).stage() == old(self).stage() && final(self).results()
                == old(self).results() && final(self).conversation() == old(self).conversation(),
            res matches Ok(TranslateAction::Done(t)) ==> {
                &&& final(self).stage() == TranslationPhase::Finished
                &&& reply matches LlmReply::Choice { tool_calls, content }
                &&& t.original_text@ == old(self).text()
                &&& t.translated_text@ == reply_text(content)
                &&& t.search_results@ == old(self).results()
            },
            old(self).stage() is AwaitingTerms ==> match reply {
                LlmReply::NoChoice => res matches Err(AppError::LlmResponseParse(m)) && m@
                    == "no choices in response"@,
                LlmReply::Choice { tool_calls, content } => if tool_calls@.len() == 0 {
                    res matches Ok(TranslateAction::Done(_))
                } else {
                    match searched_terms(call_views(tool_calls@)) {
                        None => res matches Err(e) && e is LlmResponseParse,
                        Some(ts) => {
                            &&& final(self).stage() == TranslationPhase::AwaitingTranslation
                            &&& results_match(final(self).results(), index_views(index), ts)
                            &&& final(self).conversation() == old(self).conversation().push(
                                MessageView::AssistantToolCalls(call_views(tool_calls@)),
                            ) + reply_messages(tool_replies(call_views(tool_calls@), index_views(index)))
                            &&& final(self).conversation().len() == old(self).conversation().len() + 1
                                + tool_calls@.len()
                            &&& forall|k: int| 0 <= k < tool_calls@.len() ==> #[trigger] final(self).conversation()[old(
                                self,
                            ).conversation().len() + 1 + k] == MessageView::Tool(
                                tool_calls@[k].id@,
                                call_reply(call_views(tool_calls@)[k], index_views(index)),
                            )
                            &&& res matches Ok(TranslateAction::Ask { messages, offer_tools })
                                && chat_views(messages@) == final(self).conversation() && !offer_tools
                        },
                    }
                },
            },
            old(self).stage() is AwaitingTranslation ==> match reply {
                LlmReply::NoChoice => res matches Err(AppError::LlmResponseParse(m)) && m@
                    == "no choices in final response"@,
                LlmReply::Choice { tool_calls, content } => res matches Ok(TranslateAction::Done(_)),
            },
    {
        match self.phase {
            TranslationPhase::AwaitingTerms => match reply {
                LlmReply::NoChoice => Err(AppError::LlmResponseParse(owned("no choices in response"))),
                LlmReply::Choice { tool_calls, content } => {
                    if tool_calls.len() == 0 {
                        return Ok(self.finish(content));
                    }
                    let outcome = run_tool_calls(&tool_calls, index)?;
                    let ghost c0 = self.conversation();
                    self.conversation.push(ChatMessage::AssistantToolCalls(tool_calls));
                    let ToolOutcome { search_results, replies } = outcome;
                    let ghost rv = reply_views(replies@);
                    let ghost c1 = self.conversation();
                    let ghost a0 = self.announcement@;
                    let mut i: usize = 0;
                    while i < replies.len()
                        invariant
                            self.announcement@ == a0,
                            i <= replies@.len(),
                            rv == reply_views(replies@),
                            self.conversation() == c1 + reply_messages(rv.take(i as int)),
                        decreases replies@.len() - i,
                    {
                        let r = &replies[i];
                        let ghost before = self.conversation();
                        self.conversation.push(ChatMessage::Tool {
                            call_id: r.call_id.clone(),
                            content: r.content.clone(),
                        });
                        assert(reply_messages(rv.take(i + 1)) =~= reply_messages(rv.take(i as int)).push(
                            MessageView::Tool(rv[i as int].0, rv[i as int].1),
                        ));
                        assert(self.conversation() =~= before.push(MessageView::Tool(rv[i as int].0, rv[i as int].1)));
                        i = i + 1;
                    }
                    assert(rv.take(rv.len() as int) =~= rv);
                    proof {
                        let cv = call_views(tool_calls@);
                        lemma_tool_replies_answer_each_call(cv, index_views(index));
                        assert forall|k: int| 0 <= k < tool_calls@.len() implies #[trigger] self.conversation()[c0.len()
                            + 1 + k] == MessageView::Tool(tool_calls@[k].id@, call_reply(cv[k], index_views(index))) by {
                            assert(self.conversation()[c0.len() + 1 + k] == reply_messages(rv)[k]);
                            assert(rv[k] == tool_replies(cv, index_views(index))[k]);
                        }
                    }
                    self.search_results = search_results;
                    self.phase = TranslationPhase::AwaitingTranslation;
                    let messages = copy_messages(&self.conversation);
                    Ok(TranslateAction::Ask { messages, offer_tools: false })
                },
            },
            TranslationPhase::AwaitingTranslation => match reply {
                LlmReply::NoChoice => Err(
                    AppError::LlmResponseParse(owned("no choices in final response")),
                ),
                LlmReply::Choice { tool_calls, content } => Ok(self.finish(content)),
            },
            TranslationPhase::Finished => vstd::pervasive::unreached(),
        }
    }

    /// Ends the translation with the reply's text.
    fn finish(&mut self, content: Option<String>) -> (res: TranslateAction)
        ensures
            final(self).text() == old(self).text(),
            final(self).stage() == TranslationPhase::Finished,
            final(self).conversation() == old(self).conversation(),
            res matches TranslateAction::Done(t) && t.original_text@ == old(self).text()
                && t.translated_text@ == reply_text(content) && t.search_results@ == old(self).results(),
    {
        let translated_text = match content {
            Some(c) => c,
            None => String::new(),
        };
        let mut results: Vec<PoSearchResult> = Vec::new();
        std::mem::swap(&mut results, &mut self.search_results);
        self.phase = TranslationPhase::Finished;
        TranslateAction::Done(
            TranslatedAnnouncement { original_text: self.announcement.clone(), translated_text, search_results: results },
        )
    }
}

} // verus!
