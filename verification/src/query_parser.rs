use vstd::prelude::*;
use crate::dataset::{Value, ValueView};
use crate::query::{Aggregation, Condition, ConditionView, Query, condition_model};

verus! {

/// The characters that `char::is_whitespace` accepts: those with the
/// Unicode property White_Space.
pub open spec fn is_whitespace(c: char) -> bool {
    let n = c as u32;
    ||| 0x9 <= n <= 0xD
    ||| n == 0x20
    ||| n == 0x85
    ||| n == 0xA0
    ||| n == 0x1680
    ||| 0x2000 <= n <= 0x200A
    ||| n == 0x2028
    ||| n == 0x2029
    ||| n == 0x202F
    ||| n == 0x205F
    ||| n == 0x3000
}

/// The words of `s`: its maximal runs of non-whitespace characters, in order.
pub open spec fn words_of(s: Seq<char>) -> Seq<Seq<char>>
    decreases s.len(),
{
    if s.len() == 0 {
        Seq::empty()
    } else {
        let w = words_of(s.drop_last());
        let c = s.last();
        if is_whitespace(c) {
            w
        } else if s.len() >= 2 && !is_whitespace(s[s.len() - 2]) {
            w.update(w.len() - 1, w.last().push(c))
        } else {
            w.push(seq![c])
        }
    }
}

/// Law: whitespace before or after a text does not change its words.
pub proof fn law_surrounding_whitespace_ignored(s: Seq<char>, c: char)
    requires
        is_whitespace(c),
    ensures
        words_of(s.push(c)) == words_of(s),
        words_of(seq![c] + s) == words_of(s),
    decreases s.len(),
{
    assert(s.push(c).drop_last() =~= s);
    let t = seq![c] + s;
    if s.len() == 0 {
        assert(t =~= seq![c]);
        assert(t.drop_last() =~= Seq::<char>::empty());
        assert(words_of(t) == words_of(t.drop_last()));
        assert(words_of(t) == words_of(s));
    } else {
        let p = s.drop_last();
        law_surrounding_whitespace_ignored(p, c);
        assert(t.drop_last() =~= seq![c] + p);
        assert(t.last() == s.last());
        assert(words_of(t.drop_last()) == words_of(p));
        if s.len() >= 2 {
            assert(t[t.len() - 2] == s[s.len() - 2]);
            assert(words_of(t) == words_of(s));
        } else {
            assert(t[t.len() - 2] == c);
            assert(words_of(t) == words_of(s));
        }
    }
}

fn is_whitespace_char(c: char) -> (b: bool)
    ensures
        b == is_whitespace(c),
{
    let n = c as u32;
    (0x9 <= n && n <= 0xD) || n == 0x20 || n == 0x85 || n == 0xA0 || n == 0x1680 || (0x2000 <= n
        && n <= 0x200A) || n == 0x2028 || n == 0x2029 || n == 0x202F || n == 0x205F || n == 0x3000
}

/// The characters of `s`, in order.
fn chars_of(s: &str) -> (chars: Vec<char>)
    ensures
        chars@ == s@,
{
    let n = s.unicode_len();
    let mut chars: Vec<char> = Vec::new();
    for i in 0..n
        invariant
            n == s@.len(),
            chars@ == s@.take(i as int),
    {
        chars.push(s.get_char(i));
        assert(chars@ =~= s@.take(i + 1));
    }
    assert(s@.take(n as int) =~= s@);
    chars
}

/// The positions `[start, end)` of the words of `chars`.
fn split_words(chars: &Vec<char>) -> (ranges: Vec<(usize, usize)>)
    ensures
        ranges@.len() == words_of(chars@).len(),
        forall|k: int|
            0 <= k < ranges@.len() ==> {
                &&& (#[trigger] ranges@[k]).0 < ranges@[k].1 <= chars@.len()
                &&& chars@.subrange(ranges@[k].0 as int, ranges@[k].1 as int) == words_of(chars@)[k]
            },
{
    let mut ranges: Vec<(usize, usize)> = Vec::new();
    let n = chars.len();
    for i in 0..n
        invariant
            n == chars@.len(),
            ranges@.len() == words_of(chars@.take(i as int)).len(),
            forall|k: int|
                0 <= k < ranges@.len() ==> {
                    &&& (#[trigger] ranges@[k]).0 < ranges@[k].1 <= i
                    &&& chars@.subrange(ranges@[k].0 as int, ranges@[k].1 as int) == words_of(
                        chars@.take(i as int),
                    )[k]
                },
            i > 0 && !is_whitespace(chars@[i - 1]) ==> ranges@.len() > 0 && ranges@.last().1 == i,
    {
        let c = chars[i];
        let ghost s = chars@.take(i + 1);
        assert(s.drop_last() =~= chars@.take(i as int));
        assert(s.last() == c);
        if is_whitespace_char(c) {
        } else if i >= 1 && !is_whitespace_char(chars[i - 1]) {
            assert(s[s.len() - 2] == chars@[i - 1]);
            let last = ranges.len() - 1;
            let start = ranges[last].0;
            let ghost w = words_of(chars@.take(i as int));
            assert(chars@.subrange(start as int, i + 1) =~= chars@.subrange(start as int, i as int).push(c));
            ranges.set(last, (start, i + 1));
            assert forall|k: int| 0 <= k < ranges@.len() implies {
                &&& (#[trigger] ranges@[k]).0 < ranges@[k].1 <= i + 1
                &&& chars@.subrange(ranges@[k].0 as int, ranges@[k].1 as int) == words_of(s)[k]
            } by {
                if k < last {
                    assert(words_of(s)[k] == w[k]);
                }
            }
        } else {
            if i >= 1 {
                assert(s[s.len() - 2] == chars@[i - 1]);
            }
            let ghost w = words_of(chars@.take(i as int));
            assert(chars@.subrange(i as int, i + 1) =~= seq![c]);
            ranges.push((i, i + 1));
            assert forall|k: int| 0 <= k < ranges@.len() implies {
                &&& (#[trigger] ranges@[k]).0 < ranges@[k].1 <= i + 1
                &&& chars@.subrange(ranges@[k].0 as int, ranges@[k].1 as int) == words_of(s)[k]
            } by {
                if k < ranges@.len() - 1 {
                    assert(words_of(s)[k] == w[k]);
                }
            }
        }
    }
    assert(chars@.take(n as int) =~= chars@);
    ranges
}

/// Whether the characters `chars[start..end]` spell `word`.
fn spells(chars: &Vec<char>, start: usize, end: usize, word: &str) -> (b: bool)
    requires
        start <= end <= chars@.len(),
    ensures
        b == (chars@.subrange(start as int, end as int) == word@),
{
    let n = word.unicode_len();
    if end - start != n {
        return false;
    }
    for j in 0..n
        invariant
            n == word@.len(),
            end - start == n,
            start <= end <= chars@.len(),
            forall|t: int| 0 <= t < j ==> chars@[start + t] == word@[t],
    {
        if chars[start + j] != word.get_char(j) {
            assert(chars@.subrange(start as int, end as int)[j as int] != word@[j as int]);
            return false;
        }
    }
    assert(chars@.subrange(start as int, end as int) =~= word@);
    true
}

/// The position of the first occurrence of `w` in `words` at or after `i`, or -1.
pub open spec fn find_from(words: Seq<Seq<char>>, w: Seq<char>, i: int) -> int
    decreases words.len() - i,
{
    if i < 0 || i >= words.len() {
        -1
    } else if words[i] == w {
        i
    } else {
        find_from(words, w, i + 1)
    }
}

/// The position of the first occurrence of `w` in `words`, or -1.
pub open spec fn find_word(words: Seq<Seq<char>>, w: Seq<char>) -> int {
    find_from(words, w, 0)
}

/// The position of the last occurrence of `w` among the first `n` words, or -1.
pub open spec fn last_before(words: Seq<Seq<char>>, w: Seq<char>, n: int) -> int
    decreases n,
{
    if n <= 0 {
        -1
    } else if words[n - 1] == w {
        n - 1
    } else {
        last_before(words, w, n - 1)
    }
}

/// The last occurrence before `n` lies before `n`.
proof fn lemma_last_before_bound(words: Seq<Seq<char>>, w: Seq<char>, n: int)
    ensures
        -1 <= last_before(words, w, n) < if n > 0 { n } else { 0 },
    decreases n,
{
    if n > 0 {
        lemma_last_before_bound(words, w, n - 1);
    }
}

/// The position of the keyword `GROUP`, or -1.
pub open spec fn group_at(words: Seq<Seq<char>>) -> int {
    find_word(words, "GROUP"@)
}

/// Where the words of the filter begin: after the last `FILTER` that
/// precedes the first `GROUP` (the start when there is none).
pub open spec fn filter_start(words: Seq<Seq<char>>) -> int {
    let g = group_at(words);
    last_before(words, "FILTER"@, if g >= 0 { g } else { words.len() as int }) + 1
}

/// The words of the filter: those between its start and the first `GROUP`.
pub open spec fn condition_words(words: Seq<Seq<char>>) -> Seq<Seq<char>> {
    words.subrange(filter_start(words), group_at(words))
}

/// The position of the first `AND` or `OR` in `cw` at or after `i`, or -1.
pub open spec fn connective_from(cw: Seq<Seq<char>>, i: int) -> int
    decreases cw.len() - i,
{
    if i < 0 || i >= cw.len() {
        -1
    } else if cw[i] == "AND"@ || cw[i] == "OR"@ {
        i
    } else {
        connective_from(cw, i + 1)
    }
}

/// The position of the first `AND` or `OR` in `cw`, or -1.
pub open spec fn connective_at(cw: Seq<Seq<char>>) -> int {
    connective_from(cw, 0)
}

/// `w` without its leading `(`, `!` and `"` characters, and whether a `!` was among them.
pub open spec fn strip_lead(w: Seq<char>) -> (Seq<char>, bool)
    decreases w.len(),
{
    if w.len() > 0 && (w[0] == '(' || w[0] == '!' || w[0] == '"') {
        let (r, negated) = strip_lead(w.skip(1));
        (r, negated || w[0] == '!')
    } else {
        (w, false)
    }
}

/// `w` without its trailing `)` and `"` characters.
pub open spec fn strip_trail(w: Seq<char>) -> Seq<char>
    decreases w.len(),
{
    if w.len() > 0 && (w.last() == ')' || w.last() == '"') {
        strip_trail(w.drop_last())
    } else {
        w
    }
}

/// `w` without its leading `"` characters.
pub open spec fn strip_quotes(w: Seq<char>) -> Seq<char>
    decreases w.len(),
{
    if w.len() > 0 && w[0] == '"' {
        strip_quotes(w.skip(1))
    } else {
        w
    }
}

/// The comparison that a run of filter words denotes: the first word, cleaned
/// of leading punctuation, names the column; the last, cleaned of quotes and
/// parentheses, is the text it must equal; a `!` in front negates it.
pub open spec fn term_of(first: Seq<char>, last: Seq<char>) -> ConditionView {
    let (name, negated) = strip_lead(first);
    let eq = ConditionView::Equal(name, ValueView::String(strip_quotes(strip_trail(last))));
    if negated {
        ConditionView::Not(Box::new(eq))
    } else {
        eq
    }
}

/// The condition that the filter words denote: two comparisons joined by the
/// first `AND` or `OR`, or a single comparison.
pub open spec fn filter_of(words: Seq<Seq<char>>) -> ConditionView {
    let cw = condition_words(words);
    let k = connective_at(cw);
    if k >= 0 {
        let left = term_of(cw[0], cw[k - 1]);
        let right = term_of(cw[k + 1], cw.last());
        if cw[k] == "AND"@ {
            ConditionView::And(Box::new(left), Box::new(right))
        } else {
            ConditionView::Or(Box::new(left), Box::new(right))
        }
    } else {
        term_of(cw[0], cw.last())
    }
}

/// The text is a query that can be parsed: it has a `GROUP` keyword followed
/// by two words, a non-empty filter whose connective (if any) has a comparison
/// on each side, and ends with `COUNT`, `SUM` or `AVERAGE` and a column name.
pub open spec fn parse_defined(s: Seq<char>) -> bool {
    let words = words_of(s);
    let g = group_at(words);
    let cw = condition_words(words);
    let k = connective_at(cw);
    let op = words[words.len() - 2];
    &&& g >= 0
    &&& g + 2 < words.len()
    &&& cw.len() > 0
    &&& (k >= 0 ==> 0 < k < cw.len() - 1)
    &&& (op == "COUNT"@ || op == "SUM"@ || op == "AVERAGE"@)
}

/// Skips the leading `(`, `!` and `"` of `chars[start..end]`; says whether a `!` was skipped.
fn strip_lead_range(chars: &Vec<char>, start: usize, end: usize) -> (r: (usize, bool))
    requires
        start <= end <= chars@.len(),
    ensures
        start <= r.0 <= end,
        strip_lead(chars@.subrange(start as int, end as int)) == (
            chars@.subrange(r.0 as int, end as int),
            r.1,
        ),
{
    let mut i = start;
    let mut negated = false;
    while i < end && (chars[i] == '(' || chars[i] == '!' || chars[i] == '"')
        invariant
            start <= i <= end <= chars@.len(),
            strip_lead(chars@.subrange(start as int, end as int)) == (
                strip_lead(chars@.subrange(i as int, end as int)).0,
                strip_lead(chars@.subrange(i as int, end as int)).1 || negated,
            ),
        decreases end - i,
    {
        assert(chars@.subrange(i as int, end as int).skip(1) =~= chars@.subrange(i + 1, end as int));
        if chars[i] == '!' {
            negated = true;
        }
        i = i + 1;
    }
    (i, negated)
}

/// Drops the trailing `)` and `"` of `chars[start..end]`.
fn strip_trail_range(chars: &Vec<char>, start: usize, end: usize) -> (e: usize)
    requires
        start <= end <= chars@.len(),
    ensures
        start <= e <= end,
        strip_trail(chars@.subrange(start as int, end as int)) == chars@.subrange(start as int, e as int),
{
    let mut e = end;
    while e > start && (chars[e - 1] == ')' || chars[e - 1] == '"')
        invariant
            start <= e <= end <= chars@.len(),
            strip_trail(chars@.subrange(start as int, end as int)) == strip_trail(
                chars@.subrange(start as int, e as int),
            ),
        decreases e,
    {
        assert(chars@.subrange(start as int, e as int).drop_last() =~= chars@.subrange(start as int, e - 1));
        e = e - 1;
    }
    e
}

/// Skips the leading `"` of `chars[start..end]`.
fn strip_quotes_range(chars: &Vec<char>, start: usize, end: usize) -> (b: usize)
    requires
        start <= end <= chars@.len(),
    ensures
        start <= b <= end,
        strip_quotes(chars@.subrange(start as int, end as int)) == chars@.subrange(b as int, end as int),
{
    let mut i = start;
    while i < end && chars[i] == '"'
        invariant
            start <= i <= end <= chars@.len(),
            strip_quotes(chars@.subrange(start as int, end as int)) == strip_quotes(
                chars@.subrange(i as int, end as int),
            ),
        decreases end - i,
    {
        assert(chars@.subrange(i as int, end as int).skip(1) =~= chars@.subrange(i + 1, end as int));
        i = i + 1;
    }
    i
}

/// The text `text[start..end]`, counted in characters.
fn text_between(text: &str, start: usize, end: usize) -> (s: String)
    requires
        start <= end <= text@.len(),
    ensures
        s@ == text@.subrange(start as int, end as int),
{
    text.substring_char(start, end).to_owned()
}

/// The comparison denoted by a first word `chars[first]` and a last word `chars[last]`.
fn build_term(text: &str, chars: &Vec<char>, first: (usize, usize), last: (usize, usize)) -> (c:
    Condition)
    requires
        chars@ == text@,
        first.0 <= first.1 <= chars@.len(),
        last.0 <= last.1 <= chars@.len(),
    ensures
        condition_model(c) == term_of(
            chars@.subrange(first.0 as int, first.1 as int),
            chars@.subrange(last.0 as int, last.1 as int),
        ),
{
    let (name_start, negated) = strip_lead_range(chars, first.0, first.1);
    let value_end = strip_trail_range(chars, last.0, last.1);
    let value_start = strip_quotes_range(chars, last.0, value_end);
    let name = text_between(text, name_start, first.1);
    let value = text_between(text, value_start, value_end);
    let eq = Condition::Equal(name, Value::String(value));
    if negated {
        Condition::Not(Box::new(eq))
    } else {
        eq
    }
}

/// The aggregation is the operation `op` (`COUNT`, `SUM` or `AVERAGE`) on the column `column`.
pub open spec fn aggregation_parsed(a: Aggregation, op: Seq<char>, column: Seq<char>) -> bool {
    match a {
        Aggregation::Count(c) => op == "COUNT"@ && c@ == column,
        Aggregation::Sum(c) => op == "SUM"@ && c@ == column,
        Aggregation::Average(c) => op == "AVERAGE"@ && c@ == column,
    }
}

/// `ranges` are the positions of the words `words` in `chars`.
pub open spec fn ranges_spell(chars: Seq<char>, ranges: Seq<(usize, usize)>, words: Seq<Seq<char>>) -> bool {
    &&& ranges.len() == words.len()
    &&& forall|t: int|
        0 <= t < ranges.len() ==> {
            &&& (#[trigger] ranges[t]).0 < ranges[t].1 <= chars.len()
            &&& chars.subrange(ranges[t].0 as int, ranges[t].1 as int) == words[t]
        }
}

/// Finds the first `GROUP`: `Some((start, group))` with the start of the
/// filter words, or `None` when there is no `GROUP`.
fn locate_filter(chars: &Vec<char>, ranges: &Vec<(usize, usize)>) -> (r: Option<(usize, usize)>)
    requires
        ranges_spell(chars@, ranges@, words_of(chars@)),
    ensures
        r is None <==> group_at(words_of(chars@)) < 0,
        r matches Some((start, g)) ==> {
            &&& g == group_at(words_of(chars@))
            &&& start == filter_start(words_of(chars@))
            &&& start <= g < ranges@.len()
        },
{
    let ghost words = words_of(chars@);
    let nw = ranges.len();
    let mut start_idx: usize = 0;
    let mut i: usize = 0;
    while i < nw
        invariant
            ranges_spell(chars@, ranges@, words),
            words == words_of(chars@),
            nw == ranges@.len(),
            i <= nw,
            find_from(words, "GROUP"@, i as int) == group_at(words),
            start_idx == last_before(words, "FILTER"@, i as int) + 1,
        decreases nw - i,
    {
        proof {
            reveal_strlit("FILTER");
            reveal_strlit("GROUP");
        }
        let (a, b) = ranges[i];
        assert(chars@.subrange(a as int, b as int) == words[i as int]);
        assert(i < words.len());
        if spells(chars, a, b, "FILTER") {
            assert("FILTER"@.len() == 6);
            assert("GROUP"@.len() == 5);
            assert(words[i as int] != "GROUP"@);
            start_idx = i + 1;
        } else if spells(chars, a, b, "GROUP") {
            proof {
                lemma_last_before_bound(words, "FILTER"@, i as int);
            }
            return Some((start_idx, i));
        }
        i = i + 1;
    }
    None
}

/// The position of the first `AND` or `OR` among the words `start..end`, if any.
fn locate_connective(chars: &Vec<char>, ranges: &Vec<(usize, usize)>, start: usize, end: usize) -> (r:
    Option<usize>)
    requires
        ranges_spell(chars@, ranges@, words_of(chars@)),
        start <= end <= ranges@.len(),
    ensures
        r is None <==> connective_at(words_of(chars@).subrange(start as int, end as int)) < 0,
        r matches Some(k) ==> start <= k < end && k - start == connective_at(
            words_of(chars@).subrange(start as int, end as int),
        ),
{
    let ghost words = words_of(chars@);
    let ghost cw = words.subrange(start as int, end as int);
    let mut j: usize = start;
    while j < end
        invariant
            ranges_spell(chars@, ranges@, words),
            words == words_of(chars@),
            cw == words.subrange(start as int, end as int),
            start <= j <= end <= ranges@.len(),
            connective_from(cw, j - start) == connective_at(cw),
        decreases end - j,
    {
        let (a, b) = ranges[j];
        assert(cw[j - start] == words[j as int]);
        if spells(chars, a, b, "AND") || spells(chars, a, b, "OR") {
            return Some(j);
        }
        j = j + 1;
    }
    assert(connective_from(cw, cw.len() as int) == -1);
    None
}

/// The aggregation named by the word `chars[op]`, on the column `text[column]`.
fn build_aggregation(text: &str, chars: &Vec<char>, op: (usize, usize), column: (usize, usize)) -> (a:
    Aggregation)
    requires
        chars@ == text@,
        op.0 <= op.1 <= chars@.len(),
        column.0 <= column.1 <= chars@.len(),
        ({
            let w = chars@.subrange(op.0 as int, op.1 as int);
            w == "COUNT"@ || w == "SUM"@ || w == "AVERAGE"@
        }),
    ensures
        aggregation_parsed(
            a,
            chars@.subrange(op.0 as int, op.1 as int),
            chars@.subrange(column.0 as int, column.1 as int),
        ),
{
    let name = text_between(text, column.0, column.1);
    if spells(chars, op.0, op.1, "COUNT") {
        Aggregation::Count(name)
    } else if spells(chars, op.0, op.1, "SUM") {
        Aggregation::Sum(name)
    } else {
        Aggregation::Average(name)
    }
}

/// Parses a query of the form
/// `FILTER <comparison> [AND|OR <comparison>] GROUP BY <column> <COUNT|SUM|AVERAGE> <column>`,
/// where a comparison is `[!][(]<column> == "<text>"[)]`: the first word of a
/// comparison names the column and its last word gives the text.
pub fn parse_query_from_string(input: String) -> (q: Query)
    requires
        parse_defined(input@),
    ensures
        ({
            let words = words_of(input@);
            &&& condition_model(q.filter()) == filter_of(words)
            &&& q.group_by() == words[group_at(words) + 2]
            &&& aggregation_parsed(q.aggregate(), words[words.len() - 2], words[words.len() - 1])
        }),
{
    let text = input.as_str();
    let chars = chars_of(text);
    let ranges = split_words(&chars);
    parse_words(text, &chars, &ranges)
}

/// The query that the words of `text` spell, if it is one that
/// `parse_query_from_string` accepts (see `parse_defined`); `None` otherwise.
pub fn try_parse_query_from_string(input: String) -> (q: Option<Query>)
    ensures
        q is Some <==> parse_defined(input@),
        q matches Some(q) ==> ({
            let words = words_of(input@);
            &&& condition_model(q.filter()) == filter_of(words)
            &&& q.group_by() == words[group_at(words) + 2]
            &&& aggregation_parsed(q.aggregate(), words[words.len() - 2], words[words.len() - 1])
        }),
{
    let text = input.as_str();
    let chars = chars_of(text);
    let ranges = split_words(&chars);
    let ghost words = words_of(chars@);
    let nw = ranges.len();
    let (start, g) = match locate_filter(&chars, &ranges) {
        Some(found) => found,
        None => {
            return None;
        },
    };
    if nw < 3 || g > nw - 3 || start >= g {
        return None;
    }
    match locate_connective(&chars, &ranges, start, g) {
        Some(k) => {
            if k == start || k + 1 >= g {
                return None;
            }
        },
        None => {},
    }
    let (oa, ob) = ranges[nw - 2];
    if !(spells(&chars, oa, ob, "COUNT") || spells(&chars, oa, ob, "SUM") || spells(
        &chars,
        oa,
        ob,
        "AVERAGE",
    )) {
        return None;
    }
    Some(parse_words(text, &chars, &ranges))
}

/// The query spelled by the words `ranges` of `text`.
fn parse_words(text: &str, chars: &Vec<char>, ranges: &Vec<(usize, usize)>) -> (q: Query)
    requires
        chars@ == text@,
        ranges_spell(chars@, ranges@, words_of(chars@)),
        parse_defined(chars@),
    ensures
        ({
            let words = words_of(chars@);
            &&& condition_model(q.filter()) == filter_of(words)
            &&& q.group_by() == words[group_at(words) + 2]
            &&& aggregation_parsed(q.aggregate(), words[words.len() - 2], words[words.len() - 1])
        }),
{
    let ghost words = words_of(chars@);
    let nw = ranges.len();
    // The filter lies between the last FILTER before the first GROUP, and that GROUP.
    let (start_idx, end_idx) = match locate_filter(chars, ranges) {
        Some(found) => found,
        None => (0, 0),
    };
    let ghost cw = condition_words(words);
    assert(cw.len() == end_idx - start_idx);

    // The first AND or OR among the filter words splits it in two.
    let final_filter = match locate_connective(chars, ranges, start_idx, end_idx) {
        Some(k) => {
            assert(cw[k - start_idx] == words[k as int]);
            assert(cw[0] == words[start_idx as int]);
            assert(cw[k - start_idx - 1] == words[k - 1]);
            assert(cw[k - start_idx + 1] == words[k + 1]);
            assert(cw.last() == words[end_idx - 1]);
            let left = build_term(text, chars, ranges[start_idx], ranges[k - 1]);
            let right = build_term(text, chars, ranges[k + 1], ranges[end_idx - 1]);
            let (a, b) = ranges[k];
            if spells(chars, a, b, "AND") {
                Condition::And(Box::new(left), Box::new(right))
            } else {
                Condition::Or(Box::new(left), Box::new(right))
            }
        },
        None => {
            assert(cw[0] == words[start_idx as int]);
            assert(cw.last() == words[end_idx - 1]);
            build_term(text, chars, ranges[start_idx], ranges[end_idx - 1])
        },
    };

    // The last two words give the aggregation: the operation, then its column.
    let operation = build_aggregation(text, chars, ranges[nw - 2], ranges[nw - 1]);

    // The grouping column is the second word after GROUP.
    let (ga, gb) = ranges[end_idx + 2];
    let word_after_groupby = text_between(text, ga, gb);
    Query::new(final_filter, word_after_groupby, operation)
}

/// `c` is one of the characters a comparison may start with before its column name.
pub open spec fn is_lead_punctuation(c: char) -> bool {
    c == '(' || c == '!' || c == '"'
}

/// The word starts with punctuation among which there is a `!`.
pub open spec fn negated_word(w: Seq<char>) -> bool {
    exists|i: int|
        0 <= i < w.len() && w[i] == '!' && forall|j: int| 0 <= j < i ==> is_lead_punctuation(#[trigger] w[j])
}

/// `name` is `w` without its leading punctuation.
pub open spec fn name_of_word(w: Seq<char>, name: Seq<char>) -> bool {
    &&& name.len() <= w.len()
    &&& name == w.skip(w.len() - name.len())
    &&& forall|j: int| 0 <= j < w.len() - name.len() ==> is_lead_punctuation(#[trigger] w[j])
    &&& name.len() > 0 ==> !is_lead_punctuation(name[0])
}

/// The operand `c` compares the column named by the word `first` (its
/// leading punctuation removed), and is a negation exactly when that
/// punctuation holds a `!`.
pub open spec fn operand_of_word(c: ConditionView, first: Seq<char>) -> bool {
    &&& (c is Not <==> negated_word(first))
    &&& match c {
        ConditionView::Equal(name, _) => name_of_word(first, name),
        ConditionView::Not(inner) => match *inner {
            ConditionView::Equal(name, _) => name_of_word(first, name),
            _ => false,
        },
        _ => false,
    }
}

proof fn lemma_strip_lead_meaning(w: Seq<char>)
    ensures
        name_of_word(w, strip_lead(w).0),
        strip_lead(w).1 == negated_word(w),
    decreases w.len(),
{
    if w.len() > 0 && is_lead_punctuation(w[0]) {
        let t = w.skip(1);
        lemma_strip_lead_meaning(t);
        let r = strip_lead(t).0;
        assert(r == w.skip(w.len() - r.len())) by {
            assert(t.skip(t.len() - r.len()) =~= w.skip(w.len() - r.len()));
        }
        assert forall|j: int| 0 <= j < w.len() - r.len() implies is_lead_punctuation(#[trigger] w[j]) by {
            if j > 0 {
                assert(w[j] == t[j - 1]);
            }
        }
        if negated_word(t) {
            let i = choose|i: int|
                0 <= i < t.len() && t[i] == '!' && forall|j: int|
                    0 <= j < i ==> is_lead_punctuation(#[trigger] t[j]);
            assert(w[i + 1] == '!');
            assert forall|j: int| 0 <= j < i + 1 implies is_lead_punctuation(#[trigger] w[j]) by {
                if j > 0 {
                    assert(w[j] == t[j - 1]);
                }
            }
        }
        if w[0] == '!' {
            assert(negated_word(w)) by {
                assert(w[0] == '!');
            }
        }
        if negated_word(w) && w[0] != '!' {
            let i = choose|i: int|
                0 <= i < w.len() && w[i] == '!' && forall|j: int|
                    0 <= j < i ==> is_lead_punctuation(#[trigger] w[j]);
            assert(i > 0);
            assert(t[i - 1] == '!');
            assert forall|j: int| 0 <= j < i - 1 implies is_lead_punctuation(#[trigger] t[j]) by {
                assert(t[j] == w[j + 1]);
            }
        }
    } else {
        assert(w.skip(0) =~= w);
        if negated_word(w) {
            let i = choose|i: int|
                0 <= i < w.len() && w[i] == '!' && forall|j: int|
                    0 <= j < i ==> is_lead_punctuation(#[trigger] w[j]);
            if i > 0 {
                assert(is_lead_punctuation(w[0]));
            }
        }
    }
}

/// A comparison is a negation exactly when its first word's leading
/// punctuation holds a `!`, and it names the column that word spells once
/// that punctuation is removed.
proof fn lemma_term_of_operand(first: Seq<char>, last: Seq<char>)
    ensures
        operand_of_word(term_of(first, last), first),
{
    lemma_strip_lead_meaning(first);
}

/// Law: every comparison of a parsed filter, whether alone or on either side
/// of the first `AND` or `OR`, names the column its first word spells
/// (without leading punctuation) and is negated exactly when a `!` is in that
/// punctuation; the connective is `AND` or `OR` as written.
pub proof fn law_parsed_operands(s: Seq<char>)
    requires
        parse_defined(s),
    ensures
        ({
            let words = words_of(s);
            let cw = condition_words(words);
            let k = connective_at(cw);
            let f = filter_of(words);
            &&& k < 0 ==> operand_of_word(f, cw[0])
            &&& k >= 0 ==> match f {
                ConditionView::And(l, r) => cw[k] == "AND"@ && operand_of_word(*l, cw[0])
                    && operand_of_word(*r, cw[k + 1]),
                ConditionView::Or(l, r) => cw[k] != "AND"@ && operand_of_word(*l, cw[0])
                    && operand_of_word(*r, cw[k + 1]),
                _ => false,
            }
        }),
{
    let words = words_of(s);
    let cw = condition_words(words);
    let k = connective_at(cw);
    lemma_term_of_operand(cw[0], cw.last());
    if k >= 0 {
        lemma_term_of_operand(cw[0], cw[k - 1]);
        lemma_term_of_operand(cw[k + 1], cw.last());
    }
}

} // verus!
