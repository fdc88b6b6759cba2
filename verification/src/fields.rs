//! Splitting a record line into its whitespace-separated fields.

use vstd::prelude::*;

verus! {

/// The whitespace characters that separate fields of a record line.
pub open spec fn is_ws_char(c: char) -> bool {
    c == ' ' || c == '\t' || c == '\n' || c == '\r' || c == '\u{b}' || c == '\u{c}'
}

/// Length of the leading run of non-whitespace characters.
pub open spec fn token_len(s: Seq<char>) -> nat
    decreases s.len(),
{
    if s.len() == 0 || is_ws_char(s[0]) {
        0
    } else {
        1 + token_len(s.drop_first())
    }
}

proof fn lemma_token_len_le(s: Seq<char>)
    ensures
        token_len(s) <= s.len(),
    decreases s.len(),
{
    if s.len() > 0 && !is_ws_char(s[0]) {
        lemma_token_len_le(s.drop_first());
    }
}

/// The whitespace-separated fields of a line, in order: maximal runs
/// of non-whitespace characters.
pub open spec fn fields_of(s: Seq<char>) -> Seq<Seq<char>>
    decreases s.len() via fields_of_decreases
{
    if s.len() == 0 {
        Seq::empty()
    } else if is_ws_char(s[0]) {
        fields_of(s.drop_first())
    } else {
        seq![s.take(token_len(s) as int)] + fields_of(s.skip(token_len(s) as int))
    }
}

#[via_fn]
proof fn fields_of_decreases(s: Seq<char>) {
    lemma_token_len_le(s);
}

/// The leading token is exactly the run up to the first whitespace
/// character (or the whole string when there is none).
proof fn lemma_token_run(s: Seq<char>, m: int)
    requires
        0 <= m <= s.len(),
        forall|j: int| 0 <= j < m ==> !is_ws_char(#[trigger] s[j]),
        m < s.len() ==> is_ws_char(s[m]),
    ensures
        token_len(s) == m,
    decreases m,
{
    if m == 0 {
    } else {
        assert(!is_ws_char(s[0]));
        lemma_token_run(s.drop_first(), m - 1);
    }
}

fn is_ws(c: char) -> (r: bool)
    ensures
        r == is_ws_char(c),
{
    c == ' ' || c == '\t' || c == '\n' || c == '\r' || c == '\u{b}' || c == '\u{c}'
}

/// Splits a line into its whitespace-separated fields, each an owned
/// string, in their order on the line.
pub fn split_fields(line: &str) -> (fields: Vec<String>)
    ensures
        fields.deep_view() == fields_of(line@),
{
    let n = line.unicode_len();
    let mut fields: Vec<String> = Vec::new();
    let mut i: usize = 0;
    proof {
        assert(line@.skip(0) =~= line@);
        assert(fields.deep_view() =~= Seq::<Seq<char>>::empty());
        assert(fields.deep_view() + fields_of(line@) =~= fields_of(line@));
    }
    while i < n
        invariant
            i <= n,
            n == line@.len(),
            fields_of(line@) == fields.deep_view() + fields_of(line@.skip(i as int)),
        decreases n - i,
    {
        let c = line.get_char(i);
        if is_ws(c) {
            proof {
                assert(line@.skip(i as int).drop_first() =~= line@.skip(i + 1));
            }
            i = i + 1;
        } else {
            let ghost fields_before = fields.deep_view();
            let start = i;
            i = i + 1;
            while i < n && !is_ws(line.get_char(i))
                invariant
                    start < i <= n,
                    n == line@.len(),
                    forall|j: int| start <= j < i ==> !is_ws_char(#[trigger] line@[j]),
                decreases n - i,
            {
                i = i + 1;
            }
            let ghost rest = line@.skip(start as int);
            proof {
                assert(forall|j: int| 0 <= j < i - start ==> !is_ws_char(#[trigger] rest[j]));
                if i < n {
                    assert(is_ws_char(rest[i - start as int]));
                }
                lemma_token_run(rest, i - start as int);
                assert(rest.take(i - start as int) =~= line@.subrange(
                    start as int,
                    i as int,
                ));
                assert(rest.skip(i - start as int) =~= line@.skip(i as int));
            }
            let token = line.substring_char(start, i);
            fields.push(String::from_str(token));
            proof {
                assert(fields.deep_view() =~= fields_before.push(token@));
                assert(fields_before.push(token@) =~= fields_before + seq![token@]);
                assert(fields_of(rest) == seq![token@] + fields_of(line@.skip(i as int)));
                assert((fields_before + seq![token@]) + fields_of(line@.skip(i as int))
                    =~= fields_before + (seq![token@] + fields_of(line@.skip(i as int))));
            }
        }
    }
    proof {
        assert(line@.skip(n as int) =~= Seq::<char>::empty());
        assert(fields.deep_view() + fields_of(line@.skip(n as int)) =~= fields.deep_view());
    }
    fields
}

} // verus!
