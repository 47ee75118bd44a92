//! Web-search support around the pipeline: deciding that a message needs a
//! search, reading the model's search directive, and formatting results for
//! the prompt.

use vstd::prelude::*;
use crate::text::{chars_of, string_of, push_all, trim, trim_spec, sub_vec, starts_with_vec,
    lowercase, lower_of, u64_to_dec, dec_spec};
use crate::trigger::{keyword_hit, keyword_views, any_keyword};

verus! {

/// One search hit, as handed to the prompt.
#[derive(Debug)]
pub struct SearchResult {
    pub title: String,
    pub snippet: String,
    pub url: String,
}

/// The mathematical content of one search hit.
pub struct SearchResultView {
    pub title: Seq<char>,
    pub snippet: Seq<char>,
    pub url: Seq<char>,
}

/// The view of one search hit.
pub open spec fn search_result_view(r: SearchResult) -> SearchResultView {
    SearchResultView { title: r.title@, snippet: r.snippet@, url: r.url@ }
}

/// The words whose presence suggests the message wants current facts.
pub open spec fn search_trigger_words() -> Seq<Seq<char>> {
    seq![
        "погода"@,
        "weather"@,
        "новости"@,
        "news"@,
        "курс"@,
        "цена"@,
        "price"@,
        "стоимость"@,
        "сегодня"@,
        "today"@,
        "сейчас"@,
        "now"@,
        "последний"@,
        "latest"@,
        "новый"@,
        "new"@,
        "что такое"@,
        "what is"@,
        "кто такой"@,
        "who is"@,
        "как"@,
        "how to"@,
        "где"@,
        "where"@,
        "когда"@,
        "when"@,
        "почему"@,
        "why"@,
        "сколько"@,
        "how much"@,
        "how many"@,
        "найди"@,
        "найти"@,
        "search"@,
        "find"@,
        "загугли"@,
        "google"@,
        "актуальн"@,
        "current"@,
    ]
}

/// Reports whether the message likely needs a web search: some trigger word
/// occurs in its lower-cased text.
pub fn needs_web_search(text: &str) -> (r: bool)
    ensures
        r == keyword_hit(lower_of(text@), search_trigger_words()),
{
    let low = lowercase(text);
    let low_chars = chars_of(low.as_str());
    let mut words: Vec<Vec<char>> = Vec::new();
    words.push(chars_of("погода"));
    words.push(chars_of("weather"));
    words.push(chars_of("новости"));
    words.push(chars_of("news"));
    words.push(chars_of("курс"));
    words.push(chars_of("цена"));
    words.push(chars_of("price"));
    words.push(chars_of("стоимость"));
    words.push(chars_of("сегодня"));
    words.push(chars_of("today"));
    words.push(chars_of("сейчас"));
    words.push(chars_of("now"));
    words.push(chars_of("последний"));
    words.push(chars_of("latest"));
    words.push(chars_of("новый"));
    words.push(chars_of("new"));
    words.push(chars_of("что такое"));
    words.push(chars_of("what is"));
    words.push(chars_of("кто такой"));
    words.push(chars_of("who is"));
    words.push(chars_of("как"));
    words.push(chars_of("how to"));
    words.push(chars_of("где"));
    words.push(chars_of("where"));
    words.push(chars_of("когда"));
    words.push(chars_of("when"));
    words.push(chars_of("почему"));
    words.push(chars_of("why"));
    words.push(chars_of("сколько"));
    words.push(chars_of("how much"));
    words.push(chars_of("how many"));
    words.push(chars_of("найди"));
    words.push(chars_of("найти"));
    words.push(chars_of("search"));
    words.push(chars_of("find"));
    words.push(chars_of("загугли"));
    words.push(chars_of("google"));
    words.push(chars_of("актуальн"));
    words.push(chars_of("current"));
    proof {
        assert(keyword_views(words@) =~= search_trigger_words());
    }
    any_keyword(&low_chars, &words)
}

/// What the search-decision model answered: `Some(query)` exactly when the
/// trimmed response starts with the directive prefix, with the query being
/// the trimmed rest.
pub open spec fn search_directive_spec(response: Seq<char>) -> Option<Seq<char>> {
    let t = trim_spec(response);
    let p = "SEARCH:"@;
    if p.len() <= t.len() && t.take(p.len() as int) == p {
        Some(trim_spec(t.skip(p.len() as int)))
    } else {
        None
    }
}

/// Reads the model's search directive, as `search_directive_spec` describes
/// it.
pub fn parse_search_directive(response: &str) -> (r: Option<String>)
    ensures
        match r {
            Some(q) => search_directive_spec(response@) == Some(q@),
            None => search_directive_spec(response@) is None,
        },
{
    let chars = chars_of(response);
    let t = trim(&chars);
    let prefix = chars_of("SEARCH:");
    if starts_with_vec(&t, &prefix) {
        let rest = sub_vec(&t, prefix.len(), t.len());
        proof {
            assert(rest@ =~= trim_spec(response@).skip("SEARCH:"@.len() as int));
        }
        let q = trim(&rest);
        Some(string_of(&q))
    } else {
        None
    }
}

/// The numbered result lines, in order: the entry at position `k` carries
/// the number `k + 1`.
pub open spec fn result_lines(rs: Seq<SearchResultView>) -> Seq<char>
    decreases rs.len(),
{
    if rs.len() == 0 {
        Seq::empty()
    } else {
        result_lines(rs.drop_last()) + dec_spec(rs.len() as nat) + ". "@ + rs.last().title
            + "\n"@ + rs.last().snippet + "\n\n"@
    }
}

/// The search context block handed to the prompt.
pub open spec fn search_results_spec(rs: Seq<SearchResultView>) -> Seq<char> {
    "[You just searched the web and read these results]\n\n"@ + result_lines(rs)
}

/// Formats the results for the prompt, as `search_results_spec` describes
/// it.
pub fn format_search_results(results: &Vec<SearchResult>) -> (r: String)
    ensures
        r@ == search_results_spec(results@.map_values(|x: SearchResult| search_result_view(x))),
{
    let ghost views = results@.map_values(|x: SearchResult| search_result_view(x));
    let mut v = chars_of("[You just searched the web and read these results]\n\n");
    let ghost base = v@;
    let mut i: usize = 0;
    proof {
        assert(result_lines(views.take(0int)) =~= Seq::<char>::empty());
        assert(v@ =~= base + result_lines(views.take(0int)));
    }
    while i < results.len()
        invariant
            i <= results@.len(),
            views == results@.map_values(|x: SearchResult| search_result_view(x)),
            v@ == base + result_lines(views.take(i as int)),
        decreases results@.len() - i,
    {
        let num = u64_to_dec((i + 1) as u64);
        push_all(&mut v, &num);
        let dot = chars_of(". ");
        push_all(&mut v, &dot);
        let title = chars_of(results[i].title.as_str());
        push_all(&mut v, &title);
        let nl = chars_of("\n");
        push_all(&mut v, &nl);
        let snippet = chars_of(results[i].snippet.as_str());
        push_all(&mut v, &snippet);
        let nl2 = chars_of("\n\n");
        push_all(&mut v, &nl2);
        i = i + 1;
        proof {
            assert(views.take(i as int).drop_last() =~= views.take(i - 1));
            assert(views.take(i as int).last() == views[i - 1]);
            assert(views.take(i as int).len() == i);
            assert(v@ =~= base + result_lines(views.take(i as int)));
        }
    }
    proof {
        assert(views.take(views.len() as int) =~= views);
    }
    string_of(&v)
}

} // verus!
