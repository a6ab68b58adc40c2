//! The terms by which questions and documents are matched.
use vstd::prelude::*;
use crate::seqs::{distinct, lemma_filter_empty, lemma_filter_step};
use crate::text::chars::{alphanumeric, ascii_alnum, ascii_lower, chars_of, is_alphanumeric, is_ascii_alnum, is_white, lemma_views_push, lowercase, member, same, to_ascii_lower, to_lowercase, views, white};
use crate::text::pieces::{keep_nonempty, nonempty, pieces, split_at_class, CharClass};
use crate::text::search::{contains_any, contains_char, has_any, replace, replace_pairs, replace_pairs_spec, replace_spec};

verus! {

/// Turns of phrase that carry no subject; each is replaced by a space.
pub open spec fn query_phrases() -> Seq<(&'static str, &'static str)> {
    seq![
        ("有啥", " "),
        ("有哪些", " "),
        ("有什么", " "),
        ("能做什么", " "),
        ("能干什么", " "),
        ("介绍", " "),
    ]
}

/// The text without turns of phrase that carry no subject.
pub fn remove_query_phrases(text: &str) -> (r: String)
    ensures
        r@ == replace_pairs_spec(text@, query_phrases()),
{
    let phrases: [(&str, &str); 6] = [
        ("有啥", " "),
        ("有哪些", " "),
        ("有什么", " "),
        ("能做什么", " "),
        ("能干什么", " "),
        ("介绍", " "),
    ];
    assert(phrases@ =~= query_phrases());
    proof {
        reveal_strlit("有啥");
        reveal_strlit("有哪些");
        reveal_strlit("有什么");
        reveal_strlit("能做什么");
        reveal_strlit("能干什么");
        reveal_strlit("介绍");
    }
    replace_pairs(text, &phrases)
}

/// Function words of Chinese questions.
pub open spec fn stopwords() -> Seq<Seq<char>> {
    seq![
        "有没有"@,
        "是否"@,
        "介绍"@,
        "什么"@,
        "如何"@,
        "怎么"@,
        "请问"@,
        "以及"@,
        "可以"@,
        "能够"@,
    ]
}

/// Whether a term is a function word.
pub fn is_query_stopword(term: &str) -> (r: bool)
    ensures
        r == stopwords().contains(term@),
{
    let r = same(term, "有没有") || same(term, "是否") || same(term, "介绍") || same(
        term,
        "什么",
    ) || same(term, "如何") || same(term, "怎么") || same(term, "请问") || same(term, "以及")
        || same(term, "可以") || same(term, "能够");
    proof {
        let s = stopwords();
        assert(s.len() == 10);
        if r {
            assert(s[0] == "有没有"@ && s[1] == "是否"@ && s[2] == "介绍"@ && s[3] == "什么"@);
            assert(s[4] == "如何"@ && s[5] == "怎么"@ && s[6] == "请问"@ && s[7] == "以及"@);
            assert(s[8] == "可以"@ && s[9] == "能够"@);
        }
    }
    r
}

/// A character of a script that is written without spaces.
pub open spec fn is_cjk(c: char) -> bool {
    is_alphanumeric(c) && !is_ascii_alnum(c) && !is_white(c)
        && !"，。！？、：；（）()[]{}<>\"'"@.contains(c)
}

fn cjk(c: char) -> (r: bool)
    ensures
        r == is_cjk(c),
{
    alphanumeric(c) && !ascii_alnum(c) && !white(c) && !contains_char(
        "，。！？、：；（）()[]{}<>\"'",
        c,
    )
}

/// The pairs of neighbouring characters of unspaced script.
pub open spec fn bigrams(s: Seq<char>) -> Seq<Seq<char>>
    decreases s.len(),
{
    if s.len() < 2 {
        Seq::empty()
    } else {
        let before = bigrams(s.drop_last());
        let (a, b) = (s[s.len() - 2], s.last());
        if is_cjk(a) && is_cjk(b) {
            before.push(seq![a, b])
        } else {
            before
        }
    }
}

/// The ASCII words of a text in lower case, then its pairs of neighbouring
/// characters of unspaced script.
pub open spec fn term_list(s: Seq<char>) -> Seq<Seq<char>> {
    nonempty(pieces(s, CharClass::NotAsciiAlnum)).map_values(|w: Seq<char>| ascii_lower(w))
        + bigrams(s)
}

/// Being no function word.
pub open spec fn is_content_word() -> spec_fn(Seq<char>) -> bool {
    |w: Seq<char>| !stopwords().contains(w)
}

/// The terms of a text: ASCII words in lower case and pairs of neighbouring
/// characters of unspaced script, each once, without function words.
pub open spec fn term_seq(text: Seq<char>) -> Seq<Seq<char>> {
    distinct(term_list(replace_pairs_spec(text, query_phrases())).filter(is_content_word()))
}

fn bigram_list(s: &str) -> (r: Vec<String>)
    ensures
        views(r@) == bigrams(s@),
{
    let c = chars_of(s);
    let mut r: Vec<String> = Vec::new();
    assert(views(r@) =~= bigrams(c@.take(0)));
    for i in 0..c.len()
        invariant
            c@ == s@,
            views(r@) == bigrams(c@.take(i as int)),
    {
        let ghost next = c@.take(i + 1);
        assert(next.drop_last() =~= c@.take(i as int));
        if i > 0 {
            assert(next[next.len() - 2] == c@[i - 1]);
            if cjk(c[i - 1]) && cjk(c[i]) {
                let mut pair = String::new();
                pair.push(c[i - 1]);
                pair.push(c[i]);
                proof {
                    assert(pair@ =~= seq![c@[i - 1], c@[i as int]]);
                    lemma_views_push(r@, pair);
                }
                r.push(pair);
            }
        } else {
            assert(bigrams(c@.take(0)) =~= Seq::empty());
        }
    }
    assert(c@.take(c@.len() as int) =~= s@);
    r
}

/// The terms of a text, each once.
pub fn terms(text: &str) -> (r: Vec<String>)
    ensures
        views(r@) == term_seq(text@),
{
    let normalized = remove_query_phrases(text);
    let words = keep_nonempty(split_at_class(&normalized, CharClass::NotAsciiAlnum));
    let mut all: Vec<String> = Vec::new();
    let ghost lower = |w: Seq<char>| ascii_lower(w);
    for i in 0..words.len()
        invariant
            lower == (|w: Seq<char>| ascii_lower(w)),
            views(all@) =~= views(words@).take(i as int).map_values(lower),
    {
        let word = to_ascii_lower(&words[i]);
        proof {
            lemma_views_push(all@, word);
            assert(views(words@).take(i + 1).map_values(lower) =~= views(words@).take(
                i as int,
            ).map_values(lower).push(word@));
        }
        all.push(word);
    }
    let mut pairs = bigram_list(&normalized);
    proof {
        assert(views(words@).take(words@.len() as int) =~= views(words@));
        assert(views(all@ + pairs@) =~= views(all@) + views(pairs@));
    }
    all.append(&mut pairs);
    let ghost list = views(all@);
    let ghost p = is_content_word();
    assert(list == term_list(replace_pairs_spec(text@, query_phrases())));

    let mut r: Vec<String> = Vec::new();
    proof {
        lemma_filter_empty(list, p);
        assert(views(r@) =~= distinct(list.take(0).filter(p)));
    }
    for i in 0..all.len()
        invariant
            list == views(all@),
            p == is_content_word(),
            views(r@) == distinct(list.take(i as int).filter(p)),
    {
        proof {
            lemma_filter_step(list, i as int, p);
            let done = list.take(i as int).filter(p);
            assert(done.push(list[i as int]).drop_last() =~= done);
        }
        if !is_query_stopword(&all[i]) && !member(&r, &all[i]) {
            let term = all[i].clone();
            proof {
                lemma_views_push(r@, term);
            }
            r.push(term);
        }
    }
    assert(list.take(all@.len() as int) =~= list);
    r
}

/// Everyday phrases of a question that are dropped before it is read.
pub open spec fn chatter() -> Seq<(&'static str, &'static str)> {
    seq![
        ("告诉我", " "),
        ("查看", " "),
        ("文档", " "),
        ("时该如何", " "),
        ("该如何", " "),
    ]
}

/// Descriptions of a fault that the manuals name in English.
pub open spec fn fault_words() -> Seq<&'static str> {
    seq!["反复重启", "连续重启", "重启", "排查", "调试"]
}

/// The English terms that stand in for a described fault.
pub open spec fn fault_terms() -> Seq<(&'static str, &'static str)> {
    seq![
        ("反复重启", " continuous reboot rebooting restart restarting startup "),
        ("连续重启", " continuous reboot rebooting restart restarting startup "),
        ("重启", " reboot rebooting restart restarting startup "),
        ("排查", " debug troubleshooting "),
        ("调试", " debug troubleshooting "),
    ]
}

/// A question in lower case without everyday phrases.
pub open spec fn plain_query(lower: Seq<char>) -> Seq<char> {
    replace_pairs_spec(replace_spec(lower, "trouble shooting"@, "troubleshooting"@), chatter())
}

/// Whether a question in lower case describes a fault that the manuals name in
/// English.
pub open spec fn names_fault(lower: Seq<char>) -> bool {
    has_any(plain_query(lower), fault_words())
}

/// The terms of a question in lower case, with the English terms of the faults
/// it names.
pub open spec fn lower_query_terms(lower: Seq<char>) -> Seq<Seq<char>> {
    term_seq(replace_pairs_spec(plain_query(lower), fault_terms()))
}

/// Whether a question describes a fault that the manuals name in English.
pub open spec fn is_expanded(text: Seq<char>) -> bool {
    names_fault(lowercase(text))
}

/// The terms of a question, with the English terms of the faults it names.
pub open spec fn query_term_seq(text: Seq<char>) -> Seq<Seq<char>> {
    lower_query_terms(lowercase(text))
}

/// The terms of a question, each once, and whether English terms were added.
pub fn query_terms(text: &str) -> (r: (Vec<String>, bool))
    ensures
        views(r.0@) == query_term_seq(text@),
        r.1 == is_expanded(text@),
{
    terms_of_lower(&to_lowercase(text))
}

/// The terms of a question in lower case, each once, and whether English terms
/// were added.
pub fn terms_of_lower(lower: &str) -> (r: (Vec<String>, bool))
    ensures
        views(r.0@) == lower_query_terms(lower@),
        r.1 == names_fault(lower@),
{
    proof {
        reveal_strlit("trouble shooting");
        reveal_strlit("告诉我");
        reveal_strlit("查看");
        reveal_strlit("文档");
        reveal_strlit("时该如何");
        reveal_strlit("该如何");
        reveal_strlit("反复重启");
        reveal_strlit("连续重启");
        reveal_strlit("重启");
        reveal_strlit("排查");
        reveal_strlit("调试");
    }
    let joined = replace(lower, "trouble shooting", "troubleshooting");
    let dropped: [(&str, &str); 5] = [
        ("告诉我", " "),
        ("查看", " "),
        ("文档", " "),
        ("时该如何", " "),
        ("该如何", " "),
    ];
    assert(dropped@ =~= chatter());
    let plain = replace_pairs(&joined, &dropped);
    let faults: [&str; 5] = ["反复重启", "连续重启", "重启", "排查", "调试"];
    assert(faults@ =~= fault_words());
    let expanded = contains_any(&plain, &faults);
    let english: [(&str, &str); 5] = [
        ("反复重启", " continuous reboot rebooting restart restarting startup "),
        ("连续重启", " continuous reboot rebooting restart restarting startup "),
        ("重启", " reboot rebooting restart restarting startup "),
        ("排查", " debug troubleshooting "),
        ("调试", " debug troubleshooting "),
    ];
    assert(english@ =~= fault_terms());
    let full = replace_pairs(&plain, &english);
    (terms(&full), expanded)
}

/// How many of its terms a question has to share with a chunk. A question
/// without terms matches nothing.
pub open spec fn minimum_score(term_count: nat) -> nat {
    if term_count == 0 {
        usize::MAX as nat
    } else if term_count <= 4 {
        1
    } else if (term_count + 5) / 6 > 3 {
        (term_count + 5) / 6
    } else {
        3
    }
}

/// How many of its terms a question has to share with a chunk.
pub fn minimum_relevance_score(term_count: usize) -> (r: usize)
    ensures
        r == minimum_score(term_count as nat),
{
    if term_count == 0 {
        return usize::MAX;
    }
    if term_count <= 4 {
        return 1;
    }
    let sixth: usize = (term_count - 1) / 6 + 1;
    if sixth > 3 {
        sixth
    } else {
        3
    }
}

/// A term counts once, however often it occurs.
pub proof fn law_terms_count_once(text: Seq<char>)
    ensures
        term_seq(text).no_duplicates(),
        forall|term: Seq<char>|
            term_seq(text).contains(term) <==> term_list(
                replace_pairs_spec(text, query_phrases()),
            ).filter(is_content_word()).contains(term),
{
    crate::seqs::lemma_distinct(
        term_list(replace_pairs_spec(text, query_phrases())).filter(is_content_word()),
    );
}

} // verus!
