//! The wire format of a payload: `*`-separated `KEY:VALUE` tokens.

use vstd::prelude::*;
use vstd::string::StrSliceExecFns;

verus! {

/// A key with its value, as characters.
pub type Field = (Seq<char>, Seq<char>);

/// The position of the first `c` in `s`, or the length of `s` where it
/// holds none.
pub open spec fn first_index(s: Seq<char>, c: char) -> nat
    decreases s.len(),
{
    if s.len() == 0 || s[0] == c {
        0
    } else {
        1 + first_index(s.drop_first(), c)
    }
}

/// The tokens of `payload`: what stands between its `*`. A payload without
/// `*` is one token, and so is the empty payload.
pub open spec fn tokens(payload: Seq<char>) -> Seq<Seq<char>>
    decreases payload.len(),
{
    let star = first_index(payload, '*') as int;
    if star >= payload.len() {
        seq![payload]
    } else {
        seq![payload.take(star)] + tokens(payload.skip(star + 1))
    }
}

/// Whether `token` holds the `:` that parts its key from its value.
pub open spec fn has_separator(token: Seq<char>) -> bool {
    first_index(token, ':') < token.len()
}

/// The key and the value of `token`, parted at its first `:`; the value
/// may hold further ones.
pub open spec fn field_of(token: Seq<char>) -> Field {
    let colon = first_index(token, ':') as int;
    (token.take(colon), token.skip(colon + 1))
}

/// Whether `tokens[k]` is the first token without a separator.
pub open spec fn is_first_malformed(tokens: Seq<Seq<char>>, k: int) -> bool {
    &&& 0 <= k < tokens.len()
    &&& !has_separator(tokens[k])
    &&& forall|j: int| 0 <= j < k ==> has_separator(#[trigger] tokens[j])
}

/// The fields of `payload` in the order of its tokens, or, where a token
/// has no separator, the first such token.
pub open spec fn fields_of(payload: Seq<char>) -> Result<Seq<Field>, Seq<char>> {
    let all = tokens(payload);
    if forall|k: int| 0 <= k < all.len() ==> has_separator(#[trigger] all[k]) {
        Ok(all.map_values(|token: Seq<char>| field_of(token)))
    } else {
        Err(all[choose|k: int| is_first_malformed(all, k)])
    }
}

/// The value that `fields` gives for `key`: that of the last field with
/// this key, as a later token overrides an earlier one.
pub open spec fn lookup(fields: Seq<Field>, key: Seq<char>) -> Option<Seq<char>>
    decreases fields.len(),
{
    if fields.len() == 0 {
        None
    } else if fields.last().0 == key {
        Some(fields.last().1)
    } else {
        lookup(fields.drop_last(), key)
    }
}

/// Whether some token of `payload` has the key `key`.
pub open spec fn has_key(payload: Seq<char>, key: Seq<char>) -> bool {
    exists|k: int|
        0 <= k < tokens(payload).len() && has_separator(#[trigger] tokens(payload)[k]) && field_of(
            tokens(payload)[k],
        ).0 == key
}

/// A key is found among the fields if and only if one of them has it.
pub proof fn lemma_lookup_finds(fields: Seq<Field>, key: Seq<char>)
    ensures
        lookup(fields, key) is Some <==> exists|i: int|
            0 <= i < fields.len() && (#[trigger] fields[i]).0 == key,
    decreases fields.len(),
{
    if fields.len() > 0 {
        let shorter = fields.drop_last();
        lemma_lookup_finds(shorter, key);
        if fields.last().0 == key {
            assert(fields[fields.len() - 1].0 == key);
        } else if lookup(shorter, key) is Some {
            let i = choose|i: int| 0 <= i < shorter.len() && (#[trigger] shorter[i]).0 == key;
            assert(fields[i].0 == key);
        } else {
            assert forall|i: int| 0 <= i < fields.len() implies (#[trigger] fields[i]).0
                != key by {
                if i < shorter.len() {
                    assert(shorter[i] == fields[i]);
                }
            }
        }
    }
}

/// What a table of owned fields holds, as characters.
pub open spec fn fields_view(table: Seq<(String, String)>) -> Seq<Field> {
    table.map_values(|entry: (String, String)| (entry.0@, entry.1@))
}

/// A position up to which `s` holds no `c`, and which holds one unless it
/// is the end, is the first index of `c`.
pub proof fn lemma_first_index_is(s: Seq<char>, c: char, at: int)
    requires
        0 <= at <= s.len(),
        forall|k: int| 0 <= k < at ==> s[k] != c,
        at < s.len() ==> s[at] == c,
    ensures
        first_index(s, c) == at,
    decreases s.len(),
{
    if at > 0 {
        lemma_first_index_is(s.drop_first(), c, at - 1);
    }
}

/// The first index lies within the sequence or at its end; nothing before
/// it is `c`, and it holds `c` unless it is the end.
pub proof fn lemma_first_index(s: Seq<char>, c: char)
    ensures
        0 <= first_index(s, c) <= s.len(),
        forall|k: int| 0 <= k < first_index(s, c) ==> s[k] != c,
        first_index(s, c) < s.len() ==> s[first_index(s, c) as int] == c,
    decreases s.len(),
{
    if s.len() > 0 && s[0] != c {
        let rest = s.drop_first();
        lemma_first_index(rest, c);
        assert forall|k: int| 0 <= k < first_index(s, c) implies s[k] != c by {
            if k > 0 {
                assert(s[k] == rest[k - 1]);
            }
        }
    }
}

/// A token with a separator is its key, the separator and its value, and
/// its key holds no separator: the token is parted at its first `:`.
pub proof fn lemma_field_rejoins(token: Seq<char>)
    requires
        has_separator(token),
    ensures
        token == field_of(token).0 + seq![':'] + field_of(token).1,
        !field_of(token).0.contains(':'),
{
    lemma_first_index(token, ':');
    let colon = first_index(token, ':') as int;
    assert(token =~= token.take(colon) + seq![':'] + token.skip(colon + 1));
}

/// No token holds a `*`: that character only ever parts tokens.
pub proof fn lemma_tokens_hold_no_star(payload: Seq<char>, k: int)
    requires
        0 <= k < tokens(payload).len(),
    ensures
        !tokens(payload)[k].contains('*'),
    decreases payload.len(),
{
    lemma_first_index(payload, '*');
    let star = first_index(payload, '*') as int;
    if star < payload.len() && k > 0 {
        lemma_tokens_hold_no_star(payload.skip(star + 1), k - 1);
    }
}

/// The characters of `text`, one by one.
pub fn chars_of(text: &str) -> (chars: Vec<char>)
    ensures
        chars@ == text@,
{
    let mut chars: Vec<char> = Vec::new();
    for c in it: text.chars()
        invariant
            it.seq() == text@,
            chars@ == it.seq().take(it.index() as int),
    {
        chars.push(c);
    }
    chars
}

/// Finds the first `c` in `chars[from..to]`, or `to` where there is none.
pub fn find_first(chars: &Vec<char>, from: usize, to: usize, c: char) -> (at: usize)
    requires
        from <= to <= chars@.len(),
    ensures
        from <= at <= to,
        at - from == first_index(chars@.subrange(from as int, to as int), c),
{
    let mut at: usize = from;
    while at < to && chars[at] != c
        invariant
            from <= at <= to <= chars@.len(),
            forall|k: int| from <= k < at ==> chars@[k] != c,
        decreases to - at,
    {
        at = at + 1;
    }
    proof {
        lemma_first_index_is(chars@.subrange(from as int, to as int), c, at - from);
    }
    at
}

/// Parts `payload` into its fields. The first token without a `:` is
/// handed back as the error.
pub fn read_fields(payload: &str) -> (table: Result<Vec<(String, String)>, String>)
    ensures
        match table {
            Ok(entries) => fields_of(payload@) == Ok::<Seq<Field>, Seq<char>>(
                fields_view(entries@),
            ),
            Err(token) => fields_of(payload@) == Err::<Seq<Field>, Seq<char>>(token@),
        },
{
    let chars = chars_of(payload);
    let n: usize = chars.len();
    let mut entries: Vec<(String, String)> = Vec::new();
    let mut start: usize = 0;
    let ghost whole = payload@;
    let ghost mut done: Seq<Seq<char>> = Seq::empty();
    assert(whole.skip(0) =~= whole);
    loop
        invariant
            whole == payload@,
            chars@ == whole,
            n == whole.len(),
            start <= n,
            tokens(whole) == done + tokens(whole.skip(start as int)),
            forall|k: int| 0 <= k < done.len() ==> has_separator(#[trigger] done[k]),
            fields_view(entries@) == done.map_values(|token: Seq<char>| field_of(token)),
        decreases n - start,
    {
        let end: usize = find_first(&chars, start, n, '*');
        let colon: usize = find_first(&chars, start, end, ':');
        let ghost rest = whole.skip(start as int);
        let ghost token = whole.subrange(start as int, end as int);
        proof {
            assert(rest =~= whole.subrange(start as int, n as int));
            assert(rest.take(end - start) =~= token);
            if end < n {
                assert(rest.skip(end - start + 1) =~= whole.skip(end as int + 1));
            }
            assert(tokens(whole) =~= done.push(token) + if end < n {
                tokens(whole.skip(end as int + 1))
            } else {
                Seq::empty()
            });
        }
        if colon == end {
            let text = payload.substring_char(start, end).to_owned();
            proof {
                let all = tokens(whole);
                let at = done.len() as int;
                assert(all[at] == token);
                assert forall|j: int| 0 <= j < at implies has_separator(#[trigger] all[j]) by {
                    assert(all[j] == done[j]);
                }
                assert(is_first_malformed(all, at));
                let other = choose|k: int| is_first_malformed(all, k);
                assert(other == at) by {
                    if other < at {
                        assert(has_separator(all[other]));
                    }
                    if at < other {
                        assert(has_separator(all[at]));
                    }
                }
            }
            return Err(text);
        }
        let key = payload.substring_char(start, colon).to_owned();
        let value = payload.substring_char(colon + 1, end).to_owned();
        proof {
            assert(token.take(colon - start) =~= whole.subrange(start as int, colon as int));
            assert(token.skip(colon - start + 1) =~= whole.subrange(
                colon as int + 1,
                end as int,
            ));
            let next = done.push(token);
            assert(next.map_values(|token: Seq<char>| field_of(token)) =~= done.map_values(
                |token: Seq<char>| field_of(token),
            ).push(field_of(token)));
            assert(fields_view(entries@.push((key, value))) =~= fields_view(entries@).push(
                (key@, value@),
            ));
            done = next;
        }
        entries.push((key, value));
        if end == n {
            proof {
                let all = tokens(whole);
                assert(all =~= done);
            }
            return Ok(entries);
        }
        start = end + 1;
    }
}

/// Looks `key` up in `table`; a later entry overrides an earlier one.
pub fn find_value<'a>(table: &'a Vec<(String, String)>, key: &str) -> (value: Option<&'a String>)
    ensures
        match value {
            Some(text) => lookup(fields_view(table@), key@) == Some(text@),
            None => lookup(fields_view(table@), key@) is None,
        },
{
    let wanted: String = key.to_owned();
    let ghost fields = fields_view(table@);
    let mut i: usize = table.len();
    assert(fields.take(i as int) =~= fields);
    while i > 0
        invariant
            i <= table@.len(),
            fields == fields_view(table@),
            wanted@ == key@,
            lookup(fields, key@) == lookup(fields.take(i as int), key@),
        decreases i,
    {
        i = i - 1;
        proof {
            let shorter = fields.take(i as int + 1);
            assert(shorter.drop_last() =~= fields.take(i as int));
            assert(shorter.last() == (table@[i as int].0@, table@[i as int].1@));
        }
        if table[i].0 == wanted {
            return Some(&table[i].1);
        }
    }
    None
}

} // verus!
