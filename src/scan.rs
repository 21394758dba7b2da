//! Finding the open check-in opportunities on a course's listing page.
use vstd::prelude::*;
use crate::html::{select_html, selected_html_of};
use crate::text::{contains_chars, chars_of, has_sub, is_digit, occurs_at, occurs_at_exec};

verus! {

/// The views of a sequence of strings.
pub open spec fn views(v: Seq<String>) -> Seq<Seq<char>> {
    v.map_values(|x: String| x@)
}

/// Some element of `v` reads `id`.
pub open spec fn holds_id(v: Seq<String>, id: Seq<char>) -> bool {
    exists|k: int| 0 <= k < v.len() && #[trigger] v[k]@ == id
}

/// No two elements of `v` read the same.
pub open spec fn distinct_views(v: Seq<String>) -> bool {
    forall|a: int, b: int| 0 <= a < b < v.len() ==> #[trigger] v[a]@ != #[trigger] v[b]@
}

/// The text that introduces an opportunity id in each of the three markup
/// conventions of the listing page.
pub open spec fn id_prefix(kind: int) -> Seq<char> {
    if kind == 0 {
        "punchcard_"@
    } else if kind == 1 {
        "punch_pwd_frm_"@
    } else {
        "punch_gps("@
    }
}

/// The marker of a check-in that is already done.
pub open spec fn signed_marker() -> Seq<char> {
    "已签"@
}

/// The number of ASCII digits in `s` from position `j` on, up to the first
/// character that is not one.
pub open spec fn digit_run(s: Seq<char>, j: int) -> nat
    decreases s.len() - j,
{
    if 0 <= j < s.len() && is_digit(s[j]) {
        1 + digit_run(s, j + 1)
    } else {
        0
    }
}

/// At position `i` of `s` the convention `kind` names opportunity `id`:
/// its prefix, then all the digits that follow it, which form `id`; the
/// call form `punch_gps(..)` also needs its closing parenthesis.
pub open spec fn id_match(s: Seq<char>, i: int, kind: int, id: Seq<char>) -> bool {
    let j = i + id_prefix(kind).len();
    let k = digit_run(s, j);
    &&& 0 <= kind < 3
    &&& occurs_at(s, id_prefix(kind), i)
    &&& k > 0
    &&& id == s.subrange(j, j + k)
    &&& (kind == 2 ==> j + k < s.len() && s[j + k] == ')')
}

/// Some convention names `id` somewhere in the block `s`.
pub open spec fn block_names(s: Seq<char>, id: Seq<char>) -> bool {
    exists|i: int, kind: int| id_match(s, i, kind, id)
}

/// The block is marked as already signed.
pub open spec fn is_signed(s: Seq<char>) -> bool {
    has_sub(s, signed_marker())
}

/// `id` is open: a block that is not marked as signed names it.
pub open spec fn is_open_id(blocks: Seq<Seq<char>>, id: Seq<char>) -> bool {
    exists|b: int| 0 <= b < blocks.len() && !is_signed(#[trigger] blocks[b]) && block_names(blocks[b], id)
}

/// The set of open opportunity ids of the blocks.
pub open spec fn open_ids(blocks: Seq<Seq<char>>) -> Set<Seq<char>> {
    Set::new(|id: Seq<char>| is_open_id(blocks, id))
}

/// Appends `id` unless an element already reads the same.
pub fn push_unique(out: &mut Vec<String>, id: String)
    requires
        distinct_views(old(out)@),
    ensures
        distinct_views(final(out)@),
        forall|x: Seq<char>| holds_id(final(out)@, x) <==> (holds_id(old(out)@, x) || x == id@),
{
    let mut k: usize = 0;
    while k < out.len()
        invariant
            out@ == old(out)@,
            distinct_views(out@),
            forall|j: int| 0 <= j < k ==> out@[j]@ != id@,
        decreases out.len() - k,
    {
        if out[k] == id {
            return;
        }
        k = k + 1;
    }
    let ghost pre = out@;
    out.push(id);
    assert(distinct_views(out@)) by {
        assert forall|a: int, b: int| 0 <= a < b < out@.len() implies #[trigger] out@[a]@ != #[trigger] out@[b]@ by {
            if b == pre.len() {
                assert(pre[a]@ != id@);
            } else {
                assert(pre[a]@ != pre[b]@);
            }
        }
    }
    assert forall|x: Seq<char>| holds_id(out@, x) <==> (holds_id(pre, x) || x == id@) by {
        if holds_id(pre, x) {
            let k = choose|k: int| 0 <= k < pre.len() && #[trigger] pre[k]@ == x;
            assert(out@[k]@ == x);
        }
        if x == id@ {
            assert(out@[pre.len() as int]@ == x);
        }
    }
}

/// The number of ASCII digits in `v` from position `j` on.
fn digit_run_exec(v: &Vec<char>, j: usize) -> (k: usize)
    requires
        j <= v.len(),
    ensures
        k == digit_run(v@, j as int),
        j + k <= v.len(),
{
    let mut m: usize = j;
    while m < v.len() && '0' <= v[m] && v[m] <= '9'
        invariant
            j <= m <= v.len(),
            digit_run(v@, j as int) == (m - j) + digit_run(v@, m as int),
        decreases v.len() - m,
    {
        m = m + 1;
    }
    m - j
}

/// The id that convention `kind` names at position `i` of the block, if any.
fn id_at(block: &str, v: &Vec<char>, pats: &Vec<Vec<char>>, i: usize, kind: usize) -> (r: Option<
    String,
>)
    requires
        v@ == block@,
        pats.len() == 3,
        forall|q: int| 0 <= q < 3 ==> #[trigger] pats[q]@ == id_prefix(q),
        i < v.len(),
        kind < 3,
    ensures
        match r {
            Some(id) => id_match(v@, i as int, kind as int, id@),
            None => forall|id: Seq<char>| !id_match(v@, i as int, kind as int, id),
        },
{
    let pat = &pats[kind];
    if !occurs_at_exec(v, pat, i) {
        return None;
    }
    let j = i + pat.len();
    let k = digit_run_exec(v, j);
    if k == 0 {
        return None;
    }
    if kind == 2 && !(j + k < v.len() && v[j + k] == ')') {
        return None;
    }
    Some(String::from_str(block.substring_char(j, j + k)))
}

/// Convention `kind` names `x` at a position before `i`, or at `i` with a
/// convention numbered below `kind`.
pub open spec fn seen(s: Seq<char>, i: int, kind: int, x: Seq<char>) -> bool {
    exists|p: int, kd: int| #[trigger] id_match(s, p, kd, x) && (p < i || (p == i && kd < kind))
}

proof fn lemma_seen_step(s: Seq<char>, i: int, kind: int, x: Seq<char>)
    ensures
        seen(s, i, kind + 1, x) <==> (seen(s, i, kind, x) || id_match(s, i, kind, x)),
        seen(s, i, 3, x) <==> seen(s, i + 1, 0, x),
{
    if seen(s, i, kind + 1, x) {
        let (p, kd) = choose|p: int, kd: int| #[trigger] id_match(s, p, kd, x) && (p < i || (p == i && kd < kind + 1));
        if !(p == i && kd == kind) {
            assert(seen(s, i, kind, x));
        }
    }
    if id_match(s, i, kind, x) {
        assert(seen(s, i, kind + 1, x));
    }
    if seen(s, i, kind, x) {
        let (p, kd) = choose|p: int, kd: int| #[trigger] id_match(s, p, kd, x) && (p < i || (p == i && kd < kind));
        assert(seen(s, i, kind + 1, x));
    }
    if seen(s, i + 1, 0, x) {
        let (p, kd) = choose|p: int, kd: int| #[trigger] id_match(s, p, kd, x) && (p < i + 1 || (p == i + 1 && kd < 0));
        assert(seen(s, i, 3, x));
    }
    if seen(s, i, 3, x) {
        let (p, kd) = choose|p: int, kd: int| #[trigger] id_match(s, p, kd, x) && (p < i || (p == i && kd < 3));
        assert(seen(s, i + 1, 0, x));
    }
}

proof fn lemma_seen_all(s: Seq<char>, x: Seq<char>)
    ensures
        seen(s, s.len() as int, 0, x) <==> block_names(s, x),
{
    if block_names(s, x) {
        let (p, kd) = choose|p: int, kd: int| id_match(s, p, kd, x);
        assert(p < s.len());
        assert(seen(s, s.len() as int, 0, x));
    }
    if seen(s, s.len() as int, 0, x) {
        let (p, kd) = choose|p: int, kd: int| #[trigger] id_match(s, p, kd, x) && (p < s.len() || (p == s.len() && kd < 0));
        assert(block_names(s, x));
    }
}

/// `out` with each id that the block names added, once.
pub fn with_block_ids(block: &str, out: Vec<String>) -> (r: Vec<String>)
    requires
        distinct_views(out@),
    ensures
        distinct_views(r@),
        forall|x: Seq<char>| holds_id(r@, x) <==> (holds_id(out@, x) || block_names(block@, x)),
{
    let mut r = out;
    add_block_ids(block, &mut r);
    r
}

fn add_block_ids(block: &str, out: &mut Vec<String>)
    requires
        distinct_views(old(out)@),
    ensures
        distinct_views(final(out)@),
        forall|x: Seq<char>|
            #![trigger holds_id(final(out)@, x)]
            #![trigger holds_id(old(out)@, x)]
            #![trigger block_names(block@, x)]
            holds_id(final(out)@, x) <==> (holds_id(old(out)@, x) || block_names(block@, x)),
{
    let v = chars_of(block);
    let mut pats: Vec<Vec<char>> = Vec::new();
    pats.push(chars_of("punchcard_"));
    pats.push(chars_of("punch_pwd_frm_"));
    pats.push(chars_of("punch_gps("));
    assert forall|q: int| 0 <= q < 3 implies #[trigger] pats[q]@ == id_prefix(q) by {}
    let mut i: usize = 0;
    assert forall|x: Seq<char>| !seen(v@, 0, 0, x) by {}
    while i < v.len()
        invariant
            v@ == block@,
            pats.len() == 3,
            forall|q: int| 0 <= q < 3 ==> #[trigger] pats[q]@ == id_prefix(q),
            distinct_views(out@),
            forall|x: Seq<char>| holds_id(out@, x) <==> (holds_id(old(out)@, x) || seen(v@, i as int, 0, x)),
        decreases v.len() - i,
    {
        let mut kind: usize = 0;
        while kind < 3
            invariant
                v@ == block@,
                i < v.len(),
                pats.len() == 3,
                forall|q: int| 0 <= q < 3 ==> #[trigger] pats[q]@ == id_prefix(q),
                kind <= 3,
                distinct_views(out@),
                forall|x: Seq<char>|
                    holds_id(out@, x) <==> (holds_id(old(out)@, x) || seen(v@, i as int, kind as int, x)),
            decreases 3 - kind,
        {
            let found = id_at(block, &v, &pats, i, kind);
            match found {
                Some(id) => {
                    push_unique(out, id);
                },
                None => {},
            }
            assert forall|x: Seq<char>|
                holds_id(out@, x) <==> (holds_id(old(out)@, x) || seen(v@, i as int, kind + 1, x)) by {
                lemma_seen_step(v@, i as int, kind as int, x);
            }
            kind = kind + 1;
        }
        assert forall|x: Seq<char>|
            holds_id(out@, x) <==> (holds_id(old(out)@, x) || seen(v@, i + 1, 0, x)) by {
            lemma_seen_step(v@, i as int, 3, x);
        }
        i = i + 1;
    }
    assert forall|x: Seq<char>| holds_id(out@, x) <==> (holds_id(old(out)@, x) || block_names(block@, x)) by {
        lemma_seen_all(v@, x);
    }
}

/// The ids that the blocks name, once each, leaving out every block that
/// is marked as already signed.
pub fn active_ids(blocks: &Vec<String>) -> (r: Vec<String>)
    ensures
        distinct_views(r@),
        forall|x: Seq<char>| holds_id(r@, x) <==> is_open_id(views(blocks@), x),
{
    let marker = chars_of("已签");
    let mut out: Vec<String> = Vec::new();
    let mut b: usize = 0;
    while b < blocks.len()
        invariant
            marker@ == signed_marker(),
            b <= blocks.len(),
            distinct_views(out@),
            forall|x: Seq<char>|
                holds_id(out@, x) <==> is_open_id(views(blocks@).take(b as int), x),
        decreases blocks.len() - b,
    {
        let block = &blocks[b];
        let signed = contains_chars(&chars_of(block.as_str()), &marker);
        assert(signed == is_signed(blocks@[b as int]@));
        if !signed {
            out = with_block_ids(block.as_str(), out);
        }
        assert forall|x: Seq<char>|
            holds_id(out@, x) <==> is_open_id(views(blocks@).take(b + 1), x) by {
            let bs = views(blocks@).take(b + 1);
            assert(bs[b as int] == blocks@[b as int]@);
            if is_open_id(bs, x) {
                let c = choose|c: int| 0 <= c < bs.len() && !is_signed(#[trigger] bs[c]) && block_names(bs[c], x);
                if c < b {
                    assert(views(blocks@).take(b as int)[c] == bs[c]);
                }
            }
            if is_open_id(views(blocks@).take(b as int), x) {
                let c = choose|c: int| 0 <= c < b && !is_signed(#[trigger] views(blocks@).take(b as int)[c]) && block_names(views(blocks@).take(b as int)[c], x);
                assert(views(blocks@).take(b as int)[c] == bs[c]);
            }
        }
        b = b + 1;
    }
    assert(views(blocks@).take(blocks.len() as int) =~= views(blocks@));
    out
}

/// The open opportunity ids of a course's listing page: the ids that its
/// `div.card-body` blocks name, once each, leaving out the blocks marked
/// as already signed. An error where the page cannot be read that way.
pub fn active_ids_in_page(html: &str) -> (r: Result<Vec<String>, String>)
    ensures
        match selected_html_of(html@, "div.card-body"@) {
            Some(blocks) => r is Ok && distinct_views(r->Ok_0@) && forall|x: Seq<char>|
                holds_id(r->Ok_0@, x) <==> is_open_id(blocks, x),
            None => r is Err,
        },
{
    match select_html(html, "div.card-body") {
        Some(blocks) => Ok(active_ids(&blocks)),
        None => Err(String::from_str("could not select the check-in blocks")),
    }
}

/// An id that only blocks marked as already signed name is never open,
/// whatever the conventions that name it.
pub proof fn signed_blocks_hide_ids(blocks: Seq<Seq<char>>, id: Seq<char>)
    requires
        forall|b: int| 0 <= b < blocks.len() && block_names(#[trigger] blocks[b], id) ==> is_signed(blocks[b]),
    ensures
        !is_open_id(blocks, id),
        !open_ids(blocks).contains(id),
{
}

/// Each open id comes once from `active_ids`, however many blocks and
/// conventions name it, and the ids it returns are exactly the open ones.
pub proof fn active_ids_are_the_open_set(blocks: Seq<Seq<char>>, r: Seq<String>)
    requires
        distinct_views(r),
        forall|x: Seq<char>| holds_id(r, x) <==> is_open_id(blocks, x),
    ensures
        views(r).to_set() == open_ids(blocks),
        views(r).no_duplicates(),
        views(r).len() == open_ids(blocks).len(),
{
    assert(views(r).to_set() =~= open_ids(blocks)) by {
        assert forall|x: Seq<char>| views(r).to_set().contains(x) <==> open_ids(blocks).contains(x) by {
            if views(r).contains(x) {
                let k = choose|k: int| 0 <= k < views(r).len() && views(r)[k] == x;
                assert(r[k]@ == x);
            }
            if holds_id(r, x) {
                let k = choose|k: int| 0 <= k < r.len() && #[trigger] r[k]@ == x;
                assert(views(r)[k] == x);
            }
        }
    }
    assert(views(r).no_duplicates()) by {
        assert forall|a: int, b: int| 0 <= a < views(r).len() && 0 <= b < views(r).len() && a != b implies views(r)[a] != views(r)[b] by {
            if a < b {
                assert(r[a]@ != r[b]@);
            } else {
                assert(r[b]@ != r[a]@);
            }
        }
    }
    views(r).unique_seq_to_set();
}

} // verus!
