//! Verified text primitives shared across the library.
//!
//! The subcommands live on plain text: program output is trimmed and split
//! into fields, profile names are compared and ordered, startup scripts are
//! searched for a marker line. These helpers give each of those operations
//! an exact specification over the character sequences behind `&str`.

use vstd::prelude::*;

verus! {

use vstd::multiset::Multiset;

/// Holds when a character is one of the ASCII whitespace characters that
/// separate fields in the program output this library consumes.
pub open spec fn is_space(c: char) -> bool {
    c == ' ' || c == '\t' || c == '\n' || c == '\r'
}

/// Compares two string slices character by character.
pub fn str_eq(a: &str, b: &str) -> (r: bool)
    ensures
        r == (a@ == b@),
{
    let a_len = a.unicode_len();
    let b_len = b.unicode_len();
    if a_len != b_len {
        proof {
            assert(a@ != b@);
        }
        return false;
    }
    let mut i: usize = 0;
    while i < a_len
        invariant
            i <= a_len,
            a_len == a@.len(),
            a_len == b@.len(),
            forall|k: int| 0 <= k < i ==> a@[k] == b@[k],
        decreases a_len - i,
    {
        if a.get_char(i) != b.get_char(i) {
            proof {
                assert(a@ != b@);
            }
            return false;
        }
        i = i + 1;
    }
    proof {
        assert(a@ =~= b@);
    }
    true
}

/// Lexicographic order on character sequences, by Unicode scalar value; the
/// order std gives string slices.
pub open spec fn lex_le(a: Seq<char>, b: Seq<char>) -> bool
    decreases a.len(),
{
    if a.len() == 0 {
        true
    } else if b.len() == 0 {
        false
    } else if (a[0] as u32) < (b[0] as u32) {
        true
    } else if (a[0] as u32) > (b[0] as u32) {
        false
    } else {
        lex_le(a.drop_first(), b.drop_first())
    }
}

/// Decides the lexicographic order of two string slices.
pub fn str_le(a: &str, b: &str) -> (r: bool)
    ensures
        r == lex_le(a@, b@),
{
    let a_len = a.unicode_len();
    let b_len = b.unicode_len();
    let mut i: usize = 0;
    proof {
        assert(a@.skip(0) =~= a@);
        assert(b@.skip(0) =~= b@);
    }
    loop
        invariant
            i <= a_len,
            i <= b_len,
            a_len == a@.len(),
            b_len == b@.len(),
            forall|k: int| 0 <= k < i ==> a@[k] == b@[k],
            lex_le(a@, b@) == lex_le(a@.skip(i as int), b@.skip(i as int)),
        decreases a_len - i,
    {
        if i >= a_len {
            proof {
                assert(a@.skip(i as int).len() == 0);
            }
            return true;
        }
        if i >= b_len {
            proof {
                assert(b@.skip(i as int).len() == 0);
                assert(a@.skip(i as int).len() > 0);
            }
            return false;
        }
        let ac = a.get_char(i);
        let bc = b.get_char(i);
        proof {
            assert(a@.skip(i as int)[0] == a@[i as int]);
            assert(b@.skip(i as int)[0] == b@[i as int]);
        }
        if (ac as u32) < (bc as u32) {
            return true;
        }
        if (ac as u32) > (bc as u32) {
            return false;
        }
        proof {
            assert(a@.skip(i as int).drop_first() =~= a@.skip(i + 1));
            assert(b@.skip(i as int).drop_first() =~= b@.skip(i + 1));
        }
        i = i + 1;
    }
}

/// Holds when `needle` occurs as a contiguous run inside `hay`.
pub open spec fn contains_seq(hay: Seq<char>, needle: Seq<char>) -> bool {
    exists|i: int|
        0 <= i && i + needle.len() <= hay.len() && #[trigger] hay.subrange(i, i + needle.len())
            == needle
}

/// Decides [`is_space`] for one character.
pub fn is_space_char(c: char) -> (r: bool)
    ensures
        r == is_space(c),
{
    c == ' ' || c == '\t' || c == '\n' || c == '\r'
}

/// The sequence with its leading whitespace removed.
pub open spec fn trim_front(s: Seq<char>) -> Seq<char>
    decreases s.len(),
{
    if s.len() > 0 && is_space(s[0]) {
        trim_front(s.drop_first())
    } else {
        s
    }
}

/// The sequence with its trailing whitespace removed.
pub open spec fn trim_back(s: Seq<char>) -> Seq<char>
    decreases s.len(),
{
    if s.len() > 0 && is_space(s.last()) {
        trim_back(s.drop_last())
    } else {
        s
    }
}

/// The sequence with both leading and trailing whitespace removed.
pub open spec fn trimmed(s: Seq<char>) -> Seq<char> {
    trim_back(trim_front(s))
}

/// Removes leading and trailing whitespace from a string slice.
pub fn str_trim(s: &str) -> (r: String)
    ensures
        r@ == trimmed(s@),
{
    let len = s.unicode_len();
    let mut start: usize = 0;
    proof {
        assert(s@.skip(0) =~= s@);
    }
    while start < len && is_space_char(s.get_char(start))
        invariant
            start <= len,
            len == s@.len(),
            trim_front(s@) == trim_front(s@.skip(start as int)),
        decreases len - start,
    {
        proof {
            assert(s@.skip(start as int)[0] == s@[start as int]);
            assert(s@.skip(start as int).drop_first() =~= s@.skip(start + 1));
        }
        start = start + 1;
    }
    proof {
        if start == len {
            assert(s@.skip(start as int).len() == 0);
        } else {
            assert(s@.skip(start as int)[0] == s@[start as int]);
        }
        assert(trim_front(s@) == s@.skip(start as int));
    }
    let mut end: usize = len;
    proof {
        assert(s@.subrange(start as int, end as int) =~= s@.skip(start as int));
    }
    while end > start && is_space_char(s.get_char(end - 1))
        invariant
            start <= end <= len,
            len == s@.len(),
            trim_front(s@) == s@.skip(start as int),
            trim_back(s@.skip(start as int)) == trim_back(s@.subrange(start as int, end as int)),
        decreases end,
    {
        proof {
            let sub = s@.subrange(start as int, end as int);
            assert(sub.last() == s@[end - 1]);
            assert(sub.drop_last() =~= s@.subrange(start as int, end - 1));
        }
        end = end - 1;
    }
    proof {
        let sub = s@.subrange(start as int, end as int);
        if end > start {
            assert(sub.last() == s@[end - 1]);
        }
        assert(trim_back(sub) == sub);
    }
    let piece = s.substring_char(start, end);
    String::from_str(piece)
}

/// The whitespace-separated fields of `s`, gathered one character at a time:
/// `cur` is the field being read and `acc` the fields already complete.
pub open spec fn split_fields_from(
    s: Seq<char>,
    i: int,
    cur: Seq<char>,
    acc: Seq<Seq<char>>,
) -> Seq<Seq<char>>
    decreases s.len() - i,
{
    if i < 0 || i >= s.len() {
        if cur.len() == 0 {
            acc
        } else {
            acc.push(cur)
        }
    } else if is_space(s[i]) {
        if cur.len() == 0 {
            split_fields_from(s, i + 1, cur, acc)
        } else {
            split_fields_from(s, i + 1, Seq::empty(), acc.push(cur))
        }
    } else {
        split_fields_from(s, i + 1, cur.push(s[i]), acc)
    }
}

/// The whitespace-separated fields of `s`.
pub open spec fn split_fields(s: Seq<char>) -> Seq<Seq<char>> {
    split_fields_from(s, 0, Seq::empty(), Seq::empty())
}

/// Splits a string slice into its whitespace-separated fields.
pub fn split_whitespace_owned(s: &str) -> (r: Vec<String>)
    ensures
        r@.map_values(|t: String| t@) == split_fields(s@),
{
    let len = s.unicode_len();
    let mut out: Vec<String> = Vec::new();
    let mut cur = String::new();
    let mut i: usize = 0;
    proof {
        assert(out@.map_values(|t: String| t@) =~= Seq::<Seq<char>>::empty());
    }
    while i < len
        invariant
            i <= len,
            len == s@.len(),
            split_fields_from(s@, i as int, cur@, out@.map_values(|t: String| t@))
                == split_fields(s@),
        decreases len - i,
    {
        let c = s.get_char(i);
        if is_space_char(c) {
            if !cur.as_str().is_empty() {
                let ghost prev = out@.map_values(|t: String| t@);
                out.push(cur);
                cur = String::new();
                proof {
                    assert(out@.map_values(|t: String| t@) =~= prev.push(out@.last()@));
                }
            }
        } else {
            let piece = s.substring_char(i, i + 1);
            proof {
                assert(piece@ =~= seq![s@[i as int]]);
                assert(cur@ + piece@ =~= cur@.push(s@[i as int]));
            }
            cur.append(piece);
        }
        i = i + 1;
    }
    if !cur.as_str().is_empty() {
        let ghost prev = out@.map_values(|t: String| t@);
        out.push(cur);
        proof {
            assert(out@.map_values(|t: String| t@) =~= prev.push(out@.last()@));
        }
    }
    out
}

/// The fields of `s` split on the exact separator `sep`, empty fields
/// kept: `cur` is the field being read and `acc` the fields already cut.
pub open spec fn split_sep_from(
    s: Seq<char>,
    sep: char,
    i: int,
    cur: Seq<char>,
    acc: Seq<Seq<char>>,
) -> Seq<Seq<char>>
    decreases s.len() - i,
{
    if i < 0 || i >= s.len() {
        acc.push(cur)
    } else if s[i] == sep {
        split_sep_from(s, sep, i + 1, Seq::empty(), acc.push(cur))
    } else {
        split_sep_from(s, sep, i + 1, cur.push(s[i]), acc)
    }
}

/// The fields of `s` split on the exact separator `sep`: one more field
/// than separators, empty fields kept.
pub open spec fn split_sep(s: Seq<char>, sep: char) -> Seq<Seq<char>> {
    split_sep_from(s, sep, 0, Seq::empty(), Seq::empty())
}

/// Splits a string slice on an exact separator, keeping empty fields.
pub fn split_on(s: &str, sep: char) -> (r: Vec<String>)
    ensures
        r@.map_values(|t: String| t@) == split_sep(s@, sep),
{
    let len = s.unicode_len();
    let mut out: Vec<String> = Vec::new();
    let mut cur = String::new();
    let mut i: usize = 0;
    proof {
        assert(out@.map_values(|t: String| t@) =~= Seq::<Seq<char>>::empty());
    }
    while i < len
        invariant
            i <= len,
            len == s@.len(),
            split_sep_from(s@, sep, i as int, cur@, out@.map_values(|t: String| t@))
                == split_sep(s@, sep),
        decreases len - i,
    {
        let c = s.get_char(i);
        if c == sep {
            let ghost prev = out@.map_values(|t: String| t@);
            out.push(cur);
            cur = String::new();
            proof {
                assert(out@.map_values(|t: String| t@) =~= prev.push(out@.last()@));
            }
        } else {
            let piece = s.substring_char(i, i + 1);
            proof {
                assert(piece@ =~= seq![s@[i as int]]);
                assert(cur@ + piece@ =~= cur@.push(s@[i as int]));
            }
            cur.append(piece);
        }
        i = i + 1;
    }
    let ghost prev = out@.map_values(|t: String| t@);
    out.push(cur);
    proof {
        assert(out@.map_values(|t: String| t@) =~= prev.push(out@.last()@));
    }
    out
}

/// Searches a list of names for one name.
pub fn contains_name(names: &Vec<String>, name: &str) -> (r: bool)
    ensures
        r == names@.map_values(|s: String| s@).contains(name@),
{
    let n = names.len();
    let mut i: usize = 0;
    while i < n
        invariant
            i <= n,
            n == names.len(),
            forall|k: int| 0 <= k < i ==> (#[trigger] names@[k])@ != name@,
        decreases n - i,
    {
        if str_eq(names[i].as_str(), name) {
            proof {
                assert(names@.map_values(|s: String| s@)[i as int] == name@);
            }
            return true;
        }
        i = i + 1;
    }
    proof {
        let mapped = names@.map_values(|s: String| s@);
        if mapped.contains(name@) {
            let idx = choose|idx: int| 0 <= idx < mapped.len() && mapped[idx] == name@;
            assert((names@[idx])@ != name@);
            assert(mapped[idx] == (names@[idx])@);
            assert(false);
        }
    }
    false
}

/// Holds when the sequence is lexicographically ordered.
pub open spec fn sorted_names(s: Seq<Seq<char>>) -> bool {
    forall|i: int, j: int| 0 <= i < j < s.len() ==> lex_le(#[trigger] s[i], #[trigger] s[j])
}

/// The lexicographic order is total.
pub proof fn lemma_lex_total(a: Seq<char>, b: Seq<char>)
    ensures
        lex_le(a, b) || lex_le(b, a),
    decreases a.len(),
{
    if a.len() == 0 || b.len() == 0 {
    } else if (a[0] as u32) == (b[0] as u32) {
        lemma_lex_total(a.drop_first(), b.drop_first());
    }
}

/// Two sequences each at or below the other in the lexicographic order are
/// equal.
pub proof fn lemma_lex_antisymmetric(a: Seq<char>, b: Seq<char>)
    requires
        lex_le(a, b),
        lex_le(b, a),
    ensures
        a == b,
    decreases a.len(),
{
    if a.len() == 0 {
        assert(b.len() == 0);
        assert(a =~= b);
    } else {
        assert(b.len() > 0);
        lemma_lex_antisymmetric(a.drop_first(), b.drop_first());
        assert((a[0] as u32) == (b[0] as u32));
        vstd::utf8::char_u32_cast(a[0], a[0] as u32);
        vstd::utf8::char_u32_cast(b[0], b[0] as u32);
        assert(a[0] == b[0]);
        assert(a =~= seq![a[0]] + a.drop_first());
        assert(b =~= seq![b[0]] + b.drop_first());
    }
}

/// The lexicographic order is transitive.
pub proof fn lemma_lex_transitive(a: Seq<char>, b: Seq<char>, c: Seq<char>)
    requires
        lex_le(a, b),
        lex_le(b, c),
    ensures
        lex_le(a, c),
    decreases a.len(),
{
    if a.len() == 0 || b.len() == 0 || c.len() == 0 {
    } else if (a[0] as u32) == (b[0] as u32) && (b[0] as u32) == (c[0] as u32) {
        lemma_lex_transitive(a.drop_first(), b.drop_first(), c.drop_first());
    }
}

/// Sorts names lexicographically, keeping duplicates, by insertion.
pub fn sort_names(names: Vec<String>) -> (r: Vec<String>)
    ensures
        sorted_names(r@.map_values(|t: String| t@)),
        r@.map_values(|t: String| t@).to_multiset() == names@.map_values(
            |t: String| t@,
        ).to_multiset(),
{
    broadcast use vstd::seq_lib::group_to_multiset_ensures;
    broadcast use vstd::multiset::group_multiset_axioms;

    let mut out: Vec<String> = Vec::new();
    let mut rest = names;
    proof {
        assert(out@.map_values(|t: String| t@) =~= Seq::<Seq<char>>::empty());
        assert(rest@.map_values(|t: String| t@).to_multiset().add(
            out@.map_values(|t: String| t@).to_multiset(),
        ) =~= names@.map_values(|t: String| t@).to_multiset());
    }
    while rest.len() > 0
        invariant
            sorted_names(out@.map_values(|t: String| t@)),
            rest@.map_values(|t: String| t@).to_multiset().add(
                out@.map_values(|t: String| t@).to_multiset(),
            ) == names@.map_values(|t: String| t@).to_multiset(),
        decreases rest.len(),
    {
        let ghost rest_view = rest@.map_values(|t: String| t@);
        let item = match rest.pop() {
            Some(it) => it,
            None => {
                proof {
                    assert(false);
                }
                unreached()
            },
        };
        proof {
            assert(rest@.map_values(|t: String| t@) =~= rest_view.drop_last());
            assert(rest_view =~= rest_view.drop_last().push(item@));
            vstd::seq_lib::to_multiset_build::<Seq<char>>(rest_view.drop_last(), item@);
        }
        insert_sorted(&mut out, item);
        proof {
            assert(rest@.map_values(|t: String| t@).to_multiset().add(
                out@.map_values(|t: String| t@).to_multiset(),
            ) =~= names@.map_values(|t: String| t@).to_multiset());
        }
    }
    proof {
        assert(rest@.map_values(|t: String| t@).to_multiset() =~= Multiset::<Seq<char>>::empty());
    }
    out
}

/// Inserts one name into a sorted vector, keeping it sorted.
fn insert_sorted(out: &mut Vec<String>, item: String)
    requires
        sorted_names(old(out)@.map_values(|t: String| t@)),
    ensures
        sorted_names(final(out)@.map_values(|t: String| t@)),
        final(out)@.map_values(|t: String| t@).to_multiset() == old(out)@.map_values(
            |t: String| t@,
        ).to_multiset().insert(item@),
{
    broadcast use vstd::seq_lib::group_to_multiset_ensures;

    let mut pos: usize = 0;
    while pos < out.len() && str_le(out[pos].as_str(), item.as_str())
        invariant
            pos <= out.len(),
            forall|k: int|
                0 <= k < pos ==> lex_le(#[trigger] out@[k]@, item@),
        decreases out.len() - pos,
    {
        pos = pos + 1;
    }
    let ghost old_view = out@.map_values(|t: String| t@);
    proof {
        if pos < out.len() {
            assert(!lex_le(old_view[pos as int], item@));
            lemma_lex_total(old_view[pos as int], item@);
        }
    }
    out.insert(pos, item);
    proof {
        let new_view = out@.map_values(|t: String| t@);
        assert(new_view =~= old_view.insert(pos as int, item@));
        assert forall|i: int, j: int| 0 <= i < j < new_view.len() implies lex_le(
            #[trigger] new_view[i],
            #[trigger] new_view[j],
        ) by {
            if i < pos && j == pos {
            } else if i == pos && j > pos {
                assert(new_view[j] == old_view[j - 1]);
                if j - 1 > pos {
                    assert(lex_le(old_view[pos as int], old_view[j - 1]));
                    lemma_lex_transitive(item@, old_view[pos as int], old_view[j - 1]);
                } else {
                    assert(lex_le(item@, old_view[pos as int]));
                }
            } else if i < pos && j > pos {
                assert(new_view[i] == old_view[i]);
                assert(new_view[j] == old_view[j - 1]);
            } else if i > pos && j > pos {
                assert(new_view[i] == old_view[i - 1]);
                assert(new_view[j] == old_view[j - 1]);
            }
        }
        assert(new_view.to_multiset() =~= old_view.to_multiset().insert(item@)) by {
            assert(new_view =~= old_view.subrange(0, pos as int).push(item@) + old_view.subrange(
                pos as int,
                old_view.len() as int,
            ));
            assert(old_view =~= old_view.subrange(0, pos as int) + old_view.subrange(
                pos as int,
                old_view.len() as int,
            ));
            vstd::seq_lib::lemma_multiset_commutative(
                old_view.subrange(0, pos as int).push(item@),
                old_view.subrange(pos as int, old_view.len() as int),
            );
            vstd::seq_lib::lemma_multiset_commutative(
                old_view.subrange(0, pos as int),
                old_view.subrange(pos as int, old_view.len() as int),
            );
        }
    }
}

/// Removes repeated names from a sorted list, keeping one of each.
pub fn dedup_names(names: Vec<String>) -> (r: Vec<String>)
    requires
        sorted_names(names@.map_values(|t: String| t@)),
    ensures
        sorted_names(r@.map_values(|t: String| t@)),
        r@.map_values(|t: String| t@).no_duplicates(),
        r@.map_values(|t: String| t@).to_set() == names@.map_values(|t: String| t@).to_set(),
{
    let n = names.len();
    let mut out: Vec<String> = Vec::new();
    let mut i: usize = 0;
    proof {
        assert(out@.map_values(|t: String| t@).to_set() =~= names@.map_values(
            |t: String| t@,
        ).take(0).to_set());
    }
    while i < n
        invariant
            i <= n,
            n == names.len(),
            sorted_names(names@.map_values(|t: String| t@)),
            sorted_names(out@.map_values(|t: String| t@)),
            out@.map_values(|t: String| t@).no_duplicates(),
            out@.map_values(|t: String| t@).to_set() == names@.map_values(|t: String| t@).take(
                i as int,
            ).to_set(),
            out@.len() > 0 ==> i > 0 && out@.map_values(|t: String| t@).last() == names@.map_values(
                |t: String| t@,
            )[i - 1],
            forall|k: int|
                0 <= k < out@.len() ==> names@.map_values(|t: String| t@).take(
                    i as int,
                ).to_set().contains((#[trigger] out@[k])@),
        decreases n - i,
    {
        let ghost nseq = names@.map_values(|t: String| t@);
        let ghost oseq = out@.map_values(|t: String| t@);
        let keep: bool = if out.len() == 0 {
            true
        } else {
            !str_eq(out[out.len() - 1].as_str(), names[i].as_str())
        };
        proof {
            assert(nseq.take(i + 1).drop_last() =~= nseq.take(i as int));
            assert(nseq.take(i + 1).last() == nseq[i as int]);
            assert(nseq.take(i + 1).to_set() =~= nseq.take(i as int).to_set().insert(
                nseq[i as int],
            ));
        }
        if keep {
            let ghost prev = out@.map_values(|t: String| t@);
            out.push(names[i].clone());
            proof {
                let cur = out@.map_values(|t: String| t@);
                assert(cur =~= prev.push(nseq[i as int]));
                prev.lemma_push_to_set_commute(nseq[i as int]);
                assert(cur.to_set() =~= prev.to_set().insert(nseq[i as int]));
                assert forall|a: int, b: int|
                    0 <= a < b < cur.len() implies lex_le(#[trigger] cur[a], #[trigger] cur[b]) by {
                    if b == cur.len() - 1 {
                        assert(cur[a] == prev[a]);
                        assert(lex_le(nseq[i - 1], nseq[i as int]));
                        if a == prev.len() - 1 {
                            assert(cur[a] == nseq[i - 1]);
                        } else {
                            assert(lex_le(prev[a], prev[prev.len() - 1]));
                            lemma_lex_transitive(prev[a], nseq[i - 1], nseq[i as int]);
                        }
                    }
                }
                assert forall|a: int, b: int|
                    0 <= a < b < cur.len() implies cur[a] != cur[b] by {
                    if b == cur.len() - 1 && cur[a] == nseq[i as int] {
                        assert(cur[a] == prev[a]);
                        assert(lex_le(nseq[i - 1], nseq[i as int]));
                        if a == prev.len() - 1 {
                            assert(prev[a] == nseq[i - 1]);
                            assert(nseq[i - 1] == nseq[i as int]);
                            assert(false);
                        } else {
                            assert(lex_le(prev[a], prev[prev.len() - 1]));
                            assert(prev[prev.len() - 1] == nseq[i - 1]);
                            lemma_lex_antisymmetric(nseq[i as int], nseq[i - 1]);
                            assert(false);
                        }
                    }
                }
                assert(cur.no_duplicates());
            }
        } else {
            proof {
                let cur = out@.map_values(|t: String| t@);
                assert(cur.last() == nseq[i as int]);
                assert(cur.to_set().contains(nseq[i as int]));
                assert(cur.to_set() =~= nseq.take(i + 1).to_set());
            }
        }
        i = i + 1;
    }
    proof {
        assert(names@.map_values(|t: String| t@).take(n as int) =~= names@.map_values(
            |t: String| t@,
        ));
    }
    out
}

/// Searches `hay` for an occurrence of `needle`.
pub fn str_contains(hay: &str, needle: &str) -> (r: bool)
    ensures
        r == contains_seq(hay@, needle@),
{
    let hay_len = hay.unicode_len();
    let needle_len = needle.unicode_len();
    if needle_len > hay_len {
        proof {
            assert(!contains_seq(hay@, needle@));
        }
        return false;
    }
    if needle_len == 0 {
        proof {
            assert(hay@.subrange(0, 0 + needle@.len() as int) =~= needle@);
        }
        return true;
    }
    let mut i: usize = 0;
    while i <= hay_len - needle_len
        invariant
            1 <= needle_len <= hay_len,
            hay_len == hay@.len(),
            needle_len == needle@.len(),
            i <= hay_len - needle_len + 1,
            forall|k: int|
                0 <= k < i ==> #[trigger] hay@.subrange(k, k + needle@.len()) != needle@,
        decreases hay_len - i,
    {
        let sub = hay.substring_char(i, i + needle_len);
        if str_eq(sub, needle) {
            proof {
                assert(hay@.subrange(i as int, i + needle@.len()) == needle@);
            }
            return true;
        }
        i = i + 1;
    }
    proof {
        assert forall|k: int|
            0 <= k && k + needle@.len() <= hay@.len() implies #[trigger] hay@.subrange(
            k,
            k + needle@.len(),
        ) != needle@ by {
            assert(k < i);
        }
    }
    false
}

} // verus!
