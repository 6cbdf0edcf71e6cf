//! Verified text helpers for the member summary and the room-info block.
//!
//! The member summary takes every joined member's display name (or the
//! local part of the user id), keeps the first whitespace-separated
//! word, sorts and deduplicates the words, keeps at most ten, and joins
//! them into a human list ("a, b and c").

use vstd::prelude::*;
use vstd::string::StrSliceExecFns;
use vstd::string::StringExecFns;

use crate::event::MembershipState;
use crate::member::{Member, MemberV};
use crate::order::{lex_lt, str_lt};

verus! {

/// The whitespace characters the word splitter recognises.
pub open spec fn is_space(c: char) -> bool {
    c == ' ' || c == '\t' || c == '\n' || c == '\r'
}

/// The first index at or after `i` holding a non-space, or the length.
pub open spec fn non_space_from(s: Seq<char>, i: int) -> int
    decreases s.len() - i,
{
    if i < 0 || i >= s.len() {
        s.len() as int
    } else if !is_space(s[i]) {
        i
    } else {
        non_space_from(s, i + 1)
    }
}

/// The first index at or after `i` holding a space, or the length.
pub open spec fn space_from(s: Seq<char>, i: int) -> int
    decreases s.len() - i,
{
    if i < 0 || i >= s.len() {
        s.len() as int
    } else if is_space(s[i]) {
        i
    } else {
        space_from(s, i + 1)
    }
}

/// The first index at or after `i` holding a colon, or the length.
pub open spec fn colon_from(s: Seq<char>, i: int) -> int
    decreases s.len() - i,
{
    if i < 0 || i >= s.len() {
        s.len() as int
    } else if s[i] == ':' {
        i
    } else {
        colon_from(s, i + 1)
    }
}

/// The scans stay inside `[i, len]` and move forward.
proof fn lemma_scan_bounds(s: Seq<char>, i: int)
    requires
        0 <= i <= s.len(),
    ensures
        i <= non_space_from(s, i) <= s.len(),
        i <= space_from(s, i) <= s.len(),
        i <= colon_from(s, i) <= s.len(),
    decreases s.len() - i,
{
    if i < s.len() {
        lemma_scan_bounds(s, i + 1);
    }
}

/// The first whitespace-separated word: skip leading spaces, take until
/// the next space.  Empty when the string is all spaces.
pub open spec fn first_word_of(s: Seq<char>) -> Seq<char> {
    let b = non_space_from(s, 0);
    let e = space_from(s, b);
    s.subrange(b, e)
}

/// The local part of a user id: what stands after a leading `@` and
/// before the first `:`.
pub open spec fn localpart_of(s: Seq<char>) -> Seq<char> {
    let start: int = if s.len() > 0 && s[0] == '@' {
        1
    } else {
        0
    };
    s.subrange(start, colon_from(s, start))
}

/// The summary label of a member: the first word of the display name, or
/// of the user id's local part when no name is known.
pub open spec fn member_label(m: MemberV) -> Seq<char> {
    match m.display_name {
        Option::Some(n) => first_word_of(n),
        Option::None => first_word_of(localpart_of(m.user_id)),
    }
}

/// The labels of the joined members of `ms[i..]`, in order.
pub open spec fn joined_labels(ms: Seq<MemberV>, i: int) -> Seq<Seq<char>>
    decreases ms.len() - i,
{
    if i < 0 || i >= ms.len() {
        Seq::empty()
    } else if ms[i].state == MembershipState::Join {
        seq![member_label(ms[i])] + joined_labels(ms, i + 1)
    } else {
        joined_labels(ms, i + 1)
    }
}

/// Insertion into a lexicographically sorted word list.
pub open spec fn insert_word(s: Seq<Seq<char>>, x: Seq<char>) -> Seq<Seq<char>>
    decreases s.len(),
{
    if s.len() == 0 {
        seq![x]
    } else if lex_lt(x, s[0]) {
        seq![x] + s
    } else {
        seq![s[0]] + insert_word(s.drop_first(), x)
    }
}

/// The word list sorted by repeated insertion, first word first.
pub open spec fn sort_words(s: Seq<Seq<char>>) -> Seq<Seq<char>>
    decreases s.len(),
{
    if s.len() == 0 {
        Seq::empty()
    } else {
        insert_word(sort_words(s.drop_last()), s.last())
    }
}

/// Adjacent duplicates collapsed.
pub open spec fn dedup_adjacent(s: Seq<Seq<char>>) -> Seq<Seq<char>>
    decreases s.len(),
{
    if s.len() <= 1 {
        s
    } else if s[0] == s[1] {
        dedup_adjacent(s.drop_first())
    } else {
        seq![s[0]] + dedup_adjacent(s.drop_first())
    }
}

/// The words of `[i, end)` joined with a comma between neighbours.
pub open spec fn join_commas(items: Seq<Seq<char>>, i: int, end: int) -> Seq<char>
    decreases end - i,
{
    if i < 0 || i >= end || end > items.len() {
        Seq::empty()
    } else {
        items[i] + (if i + 1 < end {
            ", "@ + join_commas(items, i + 1, end)
        } else {
            Seq::<char>::empty()
        })
    }
}

/// A human list: neighbours joined with a comma, the last word attached
/// with "and".
pub open spec fn pretty_list_of(items: Seq<Seq<char>>) -> Seq<char> {
    if items.len() == 0 {
        Seq::empty()
    } else if items.len() == 1 {
        items[0]
    } else {
        join_commas(items, 0, items.len() - 1) + " and "@ + items[items.len() - 1]
    }
}

/// The joined-member summary: labels of joined members, sorted, without
/// duplicates, at most ten of them, as a human list.
pub open spec fn member_summary(ms: Seq<MemberV>) -> Seq<char> {
    let deduped = dedup_adjacent(sort_words(joined_labels(ms, 0)));
    let taken = if deduped.len() <= 10 {
        deduped
    } else {
        deduped.take(10)
    };
    pretty_list_of(taken)
}


/// Non-strict lexicographic ascending order.
pub open spec fn words_sorted(s: Seq<Seq<char>>) -> bool {
    forall|i: int, j: int| 0 <= i < j < s.len() ==> !lex_lt(#[trigger] s[j], #[trigger] s[i])
}

/// Inserting into a sorted word list keeps it sorted.
pub proof fn lemma_insert_word_sorted(s: Seq<Seq<char>>, x: Seq<char>)
    requires
        words_sorted(s),
    ensures
        words_sorted(insert_word(s, x)),
    decreases s.len(),
{
    let r = insert_word(s, x);
    if s.len() == 0 {
    } else if lex_lt(x, s[0]) {
        assert forall|i: int, j: int| 0 <= i < j < r.len() implies !lex_lt(
            #[trigger] r[j],
            #[trigger] r[i],
        ) by {
            if i == 0 {
                assert(r[0] == x);
                assert(r[j] == s[j - 1]);
                if lex_lt(s[j - 1], x) {
                    if j == 1 {
                        crate::order::lemma_lex_asym(x, s[0]);
                    } else {
                        crate::order::lemma_lex_trans(s[j - 1], x, s[0]);
                    }
                }
            } else {
                assert(r[i] == s[i - 1]);
                assert(r[j] == s[j - 1]);
            }
        }
    } else {
        let t = s.drop_first();
        assert forall|i: int, j: int| 0 <= i < j < t.len() implies !lex_lt(
            #[trigger] t[j],
            #[trigger] t[i],
        ) by {
            assert(t[i] == s[i + 1]);
            assert(t[j] == s[j + 1]);
        }
        lemma_insert_word_sorted(t, x);
        let rt = insert_word(t, x);
        lemma_insert_word_low(t, x, s[0]);
        assert forall|i: int, j: int| 0 <= i < j < r.len() implies !lex_lt(
            #[trigger] r[j],
            #[trigger] r[i],
        ) by {
            if i == 0 {
                assert(r[0] == s[0]);
                assert(r[j] == rt[j - 1]);
            } else {
                assert(r[i] == rt[i - 1]);
                assert(r[j] == rt[j - 1]);
            }
        }
    }
}

/// A lower bound on a sorted list is a lower bound after an insertion
/// that is not below it.
proof fn lemma_insert_word_low(t: Seq<Seq<char>>, x: Seq<char>, low: Seq<char>)
    requires
        !lex_lt(x, low),
        forall|k: int| 0 <= k < t.len() ==> !lex_lt(#[trigger] t[k], low),
    ensures
        forall|k: int|
            0 <= k < insert_word(t, x).len() ==> !lex_lt(#[trigger] insert_word(t, x)[k], low),
    decreases t.len(),
{
    let r = insert_word(t, x);
    if t.len() == 0 {
        assert(r[0] == x);
    } else if lex_lt(x, t[0]) {
        assert forall|k: int| 0 <= k < r.len() implies !lex_lt(#[trigger] r[k], low) by {
            if k == 0 {
                assert(r[0] == x);
            } else {
                assert(r[k] == t[k - 1]);
            }
        }
    } else {
        let tt = t.drop_first();
        assert forall|k: int| 0 <= k < tt.len() implies !lex_lt(#[trigger] tt[k], low) by {
            assert(tt[k] == t[k + 1]);
        }
        lemma_insert_word_low(tt, x, low);
        assert forall|k: int| 0 <= k < r.len() implies !lex_lt(#[trigger] r[k], low) by {
            if k == 0 {
                assert(r[0] == t[0]);
            } else {
                assert(r[k] == insert_word(tt, x)[k - 1]);
            }
        }
    }
}

/// The summary sort really sorts: its result is in ascending order.
pub proof fn lemma_sort_words_sorted(s: Seq<Seq<char>>)
    ensures
        words_sorted(sort_words(s)),
    decreases s.len(),
{
    if s.len() > 0 {
        lemma_sort_words_sorted(s.drop_last());
        lemma_insert_word_sorted(sort_words(s.drop_last()), s.last());
    }
}

/// Whether the character at `i` is whitespace.
fn space_at(s: &str, i: usize) -> (r: bool)
    requires
        i < s@.len(),
    ensures
        r == is_space(s@[i as int]),
{
    let c = s.get_char(i);
    c == ' ' || c == '\t' || c == '\n' || c == '\r'
}

/// Whether the character at `i` is a colon.
fn colon_at(s: &str, i: usize) -> (r: bool)
    requires
        i < s@.len(),
    ensures
        r == (s@[i as int] == ':'),
{
    let c = s.get_char(i);
    c == ':'
}

/// The first whitespace-separated word of a string.
pub fn first_word(s: &str) -> (r: &str)
    ensures
        r@ == first_word_of(s@),
{
    let n = s.unicode_len();
    let mut b: usize = 0;
    while b < n && space_at(s, b)
        invariant
            n == s@.len(),
            b <= n,
            non_space_from(s@, 0) == non_space_from(s@, b as int),
        decreases n - b,
    {
        b = b + 1;
    }
    proof {
        lemma_scan_bounds(s@, b as int);
        assert(non_space_from(s@, b as int) == b as int);
    }
    let mut e: usize = b;
    while e < n && !space_at(s, e)
        invariant
            n == s@.len(),
            b <= e <= n,
            space_from(s@, b as int) == space_from(s@, e as int),
        decreases n - e,
    {
        e = e + 1;
    }
    proof {
        assert(space_from(s@, e as int) == e as int);
    }
    s.substring_char(b, e)
}

/// The local part of a user id.
pub fn localpart(s: &str) -> (r: &str)
    ensures
        r@ == localpart_of(s@),
{
    let n = s.unicode_len();
    let start: usize = if n > 0 && s.get_char(0) == '@' {
        1
    } else {
        0
    };
    let mut e: usize = start;
    while e < n && !colon_at(s, e)
        invariant
            n == s@.len(),
            start <= e <= n,
            colon_from(s@, start as int) == colon_from(s@, e as int),
        decreases n - e,
    {
        e = e + 1;
    }
    proof {
        assert(colon_from(s@, e as int) == e as int);
    }
    s.substring_char(start, e)
}

/// Inserts a word into a sorted list at the position its order gives.
fn insert_word_vec(words: &mut Vec<String>, x: String)
    ensures
        final(words).deep_view() == insert_word(old(words).deep_view(), x@),
{
    let ghost wv = words.deep_view();
    let n = words.len();
    let mut p: usize = 0;
    while p < n && !str_lt(x.as_str(), words[p].as_str())
        invariant
            n == wv.len(),
            p <= n,
            *words == *old(words),
            wv == words.deep_view(),
            forall|k: int| 0 <= k < p ==> !lex_lt(x@, #[trigger] wv[k]),
        decreases n - p,
    {
        p = p + 1;
    }
    proof {
        lemma_insert_word_at(wv, x@, p as int);
    }
    words.insert(p, x);
    proof {
        assert(words.deep_view() =~= wv.subrange(0, p as int) + seq![x@] + wv.subrange(
            p as int,
            wv.len() as int,
        ));
    }
}

/// When nothing before `p` is above `x` and the word at `p` (if any) is,
/// insertion places `x` exactly at `p`.
proof fn lemma_insert_word_at(s: Seq<Seq<char>>, x: Seq<char>, p: int)
    requires
        0 <= p <= s.len(),
        forall|k: int| 0 <= k < p ==> !lex_lt(x, #[trigger] s[k]),
        p < s.len() ==> lex_lt(x, s[p]),
    ensures
        insert_word(s, x) == s.subrange(0, p) + seq![x] + s.subrange(p, s.len() as int),
    decreases s.len(),
{
    if s.len() == 0 || p == 0 {
        assert(insert_word(s, x) =~= s.subrange(0, p) + seq![x] + s.subrange(p, s.len() as int));
    } else {
        let t = s.drop_first();
        assert forall|k: int| 0 <= k < p - 1 implies !lex_lt(x, #[trigger] t[k]) by {
            assert(t[k] == s[k + 1]);
        }
        if p - 1 < t.len() {
            assert(t[p - 1] == s[p]);
        }
        lemma_insert_word_at(t, x, p - 1);
        assert(insert_word(s, x) =~= seq![s[0]] + insert_word(t, x));
        assert(seq![s[0]] + (t.subrange(0, p - 1) + seq![x] + t.subrange(p - 1, t.len() as int))
            =~= s.subrange(0, p) + seq![x] + s.subrange(p, s.len() as int));
    }
}

/// The summary line of joined member names: sorted first names, no
/// duplicates, at most ten, joined as a human list.
pub fn pretty_members(members: &Vec<Member>) -> (r: String)
    ensures
        r@ == member_summary(members.deep_view()),
{
    let ghost mv = members.deep_view();
    // collect the labels of joined members
    let mut labels: Vec<String> = Vec::new();
    let n = members.len();
    let mut i: usize = 0;
    proof {
        assert(labels.deep_view() =~= Seq::<Seq<char>>::empty());
        assert(Seq::<Seq<char>>::empty() + joined_labels(mv, 0) =~= joined_labels(mv, 0));
    }
    while i < n
        invariant
            n == mv.len(),
            i <= n,
            mv == members.deep_view(),
            labels.deep_view() + joined_labels(mv, i as int) == joined_labels(mv, 0),
        decreases n - i,
    {
        let m = &members[i];
        let is_joined = match m.state {
            MembershipState::Join => true,
            _ => false,
        };
        if is_joined {
            let ghost ld = labels.deep_view();
            let label = match &m.display_name {
                Option::Some(nm) => String::from_str(first_word(nm.as_str())),
                Option::None => String::from_str(first_word(localpart(m.user_id.as_str()))),
            };
            labels.push(label);
            proof {
                assert(labels.deep_view() =~= ld.push(member_label(mv[i as int])));
                assert(joined_labels(mv, i as int) == seq![member_label(mv[i as int])]
                    + joined_labels(mv, i as int + 1));
                assert(ld.push(member_label(mv[i as int])) + joined_labels(mv, i as int + 1)
                    =~= ld + (seq![member_label(mv[i as int])] + joined_labels(
                    mv,
                    i as int + 1,
                )));
            }
        }
        i = i + 1;
    }
    proof {
        assert(joined_labels(mv, n as int) =~= Seq::<Seq<char>>::empty());
        assert(labels.deep_view() + Seq::<Seq<char>>::empty() =~= labels.deep_view());
    }
    // sort
    let ghost lv = labels.deep_view();
    let mut sorted: Vec<String> = Vec::new();
    let ln = labels.len();
    let mut j: usize = 0;
    proof {
        assert(lv.take(0) =~= Seq::<Seq<char>>::empty());
        assert(sorted.deep_view() =~= Seq::<Seq<char>>::empty());
    }
    while j < ln
        invariant
            ln == lv.len(),
            j <= ln,
            lv == labels.deep_view(),
            sorted.deep_view() == sort_words(lv.take(j as int)),
        decreases ln - j,
    {
        insert_word_vec(&mut sorted, labels[j].clone());
        proof {
            assert(lv.take(j as int + 1).drop_last() =~= lv.take(j as int));
            assert(lv.take(j as int + 1).last() == lv[j as int]);
        }
        j = j + 1;
    }
    proof {
        assert(lv.take(ln as int) =~= lv);
    }
    // dedup adjacent
    let ghost sv = sorted.deep_view();
    let mut uniq: Vec<String> = Vec::new();
    let sn = sorted.len();
    let mut k: usize = 0;
    proof {
        assert(sv.skip(0) =~= sv);
        assert(uniq.deep_view() =~= Seq::<Seq<char>>::empty());
        assert(Seq::<Seq<char>>::empty() + dedup_adjacent(sv) =~= dedup_adjacent(sv));
    }
    while k < sn
        invariant
            sn == sv.len(),
            k <= sn,
            sv == sorted.deep_view(),
            uniq.deep_view() + dedup_adjacent(sv.skip(k as int)) == dedup_adjacent(sv),
        decreases sn - k,
    {
        proof {
            assert(sv.skip(k as int)[0] == sv[k as int]);
            assert(sv.skip(k as int).drop_first() =~= sv.skip(k as int + 1));
            if k as int + 1 < sn {
                assert(sv.skip(k as int)[1] == sv[k as int + 1]);
            }
        }
        let dup = k + 1 < sn && sorted[k] == sorted[k + 1];
        if !dup {
            let ghost ud = uniq.deep_view();
            uniq.push(sorted[k].clone());
            proof {
                assert(uniq.deep_view() =~= ud.push(sv[k as int]));
                assert(ud.push(sv[k as int]) + dedup_adjacent(sv.skip(k as int + 1)) =~= ud + (
                seq![sv[k as int]] + dedup_adjacent(sv.skip(k as int + 1))));
                if k as int + 1 < sn {
                    assert(sv.skip(k as int).len() > 1);
                }
            }
        }
        k = k + 1;
    }
    proof {
        assert(sv.skip(sn as int) =~= Seq::<Seq<char>>::empty());
        assert(uniq.deep_view() + Seq::<Seq<char>>::empty() =~= uniq.deep_view());
    }
    // keep at most ten
    let ghost uv = uniq.deep_view();
    if uniq.len() > 10 {
        uniq.truncate(10);
        proof {
            assert(uniq.deep_view() =~= uv.take(10));
        }
    }
    // join
    let r = pretty_list(&uniq);
    r
}

/// Joins words into a human list: "a", "a and b", "a, b and c".
pub fn pretty_list(items: &Vec<String>) -> (r: String)
    ensures
        r@ == pretty_list_of(items.deep_view()),
{
    let ghost iv = items.deep_view();
    let n = items.len();
    if n == 0 {
        let r = String::new();
        return r;
    }
    if n == 1 {
        return items[0].clone();
    }
    let mut r = String::new();
    let mut i: usize = 0;
    proof {
        assert(r@ + join_commas(iv, 0, n as int - 1) =~= join_commas(iv, 0, n as int - 1));
    }
    while i < n - 1
        invariant
            n == iv.len(),
            2 <= n,
            i <= n - 1,
            iv == items.deep_view(),
            r@ + join_commas(iv, i as int, n as int - 1) == join_commas(iv, 0, n as int - 1),
        decreases n - i,
    {
        r.append(items[i].as_str());
        if i + 1 < n - 1 {
            r.append(", ");
            proof {
                assert(join_commas(iv, i as int, n as int - 1) == iv[i as int] + (", "@
                    + join_commas(iv, i as int + 1, n as int - 1)));
            }
        } else {
            proof {
                assert(join_commas(iv, i as int, n as int - 1) == iv[i as int]
                    + Seq::<char>::empty());
                assert(iv[i as int] + Seq::<char>::empty() =~= iv[i as int]);
                assert(join_commas(iv, i as int + 1, n as int - 1) =~= Seq::<char>::empty());
            }
        }
        i = i + 1;
    }
    proof {
        assert(join_commas(iv, n as int - 1, n as int - 1) =~= Seq::<char>::empty());
        assert(r@ + Seq::<char>::empty() =~= r@);
    }
    r.append(" and ");
    r.append(items[n - 1].as_str());
    r
}

/// One line of the member block: `* name (user id)`.
pub open spec fn member_line(m: MemberV) -> Seq<char> {
    let name = match m.display_name {
        Option::Some(n) => n,
        Option::None => m.user_id,
    };
    "* "@ + name + " ("@ + m.user_id + ")\n"@
}

/// The member lines of `ms[i..]`, concatenated.
pub open spec fn member_lines(ms: Seq<MemberV>, i: int) -> Seq<char>
    decreases ms.len() - i,
{
    if i < 0 || i >= ms.len() {
        Seq::empty()
    } else {
        member_line(ms[i]) + member_lines(ms, i + 1)
    }
}

/// The full room-info text: title line, then one line per member.
pub open spec fn room_info(room_name: Seq<char>, room_id: Seq<char>, ms: Seq<MemberV>) -> Seq<
    char,
> {
    room_name + " ("@ + room_id + ")\n\n# Members\n\n"@ + member_lines(ms, 0)
}

/// Builds the full room-info text block.
pub fn display_full(room_name: &String, room_id: &String, members: &Vec<Member>) -> (r: String)
    ensures
        r@ == room_info(room_name@, room_id@, members.deep_view()),
{
    let ghost mv = members.deep_view();
    let mut r = String::new();
    r.append(room_name.as_str());
    r.append(" (");
    r.append(room_id.as_str());
    r.append(")\n\n# Members\n\n");
    let ghost prefix = r@;
    let n = members.len();
    let mut i: usize = 0;
    proof {
        assert(r@ + Seq::<char>::empty() =~= r@);
    }
    while i < n
        invariant
            n == mv.len(),
            i <= n,
            mv == members.deep_view(),
            prefix == room_name@ + " ("@ + room_id@ + ")\n\n# Members\n\n"@,
            r@ + member_lines(mv, i as int) == prefix + member_lines(mv, 0),
        decreases n - i,
    {
        let m = &members[i];
        r.append("* ");
        match &m.display_name {
            Option::Some(nm) => {
                r.append(nm.as_str());
            },
            Option::None => {
                r.append(m.user_id.as_str());
            },
        }
        r.append(" (");
        r.append(m.user_id.as_str());
        r.append(")\n");
        proof {
            assert(member_lines(mv, i as int) == member_line(mv[i as int]) + member_lines(
                mv,
                i as int + 1,
            ));
        }
        i = i + 1;
    }
    proof {
        assert(member_lines(mv, n as int) =~= Seq::<char>::empty());
        assert(r@ + Seq::<char>::empty() =~= r@);
    }
    r
}

} // verus!
