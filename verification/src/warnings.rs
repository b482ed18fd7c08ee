//! Warnings that the analyzer writes to its error stream: cut into blocks,
//! and classified for the UI.
use vstd::prelude::*;

use crate::text::{
    all_ws, chars_of, contains, is_ws, occurs_at, lemma_trim_bounds, slice_range, starts_with,
    starts_with_chars, str_contains, string_from_chars, trim, trim_chars, trim_end,
    trim_end_index, trim_start, trim_start_index,
};

verus! {

/// The pieces of a text between line feeds (one more than there are line
/// feeds).
pub open spec fn segments(s: Seq<char>) -> Seq<Seq<char>>
    decreases s.len(),
{
    if s.len() == 0 {
        seq![Seq::<char>::empty()]
    } else {
        let prev = segments(s.drop_last());
        if s.last() == '\n' {
            prev.push(Seq::<char>::empty())
        } else {
            prev.update(prev.len() - 1, prev.last().push(s.last()))
        }
    }
}

/// A line opens a new warning block when, past its leading whitespace, it
/// starts a solc frontend failure (possibly tagged with a target in
/// brackets), a failed analysis command, or a cancelled analysis.
pub open spec fn opens_block(line: Seq<char>) -> bool {
    let t = trim_start(line);
    ||| starts_with(t, "solc frontend failed:"@)
    ||| (t.len() > 0 && t[0] == '[' && contains(t, "] solc frontend failed:"@))
    ||| starts_with(t, "analysis command failed:"@)
    ||| starts_with(t, "analysis cancelled:"@)
}

/// The blocks closed so far, and the block being gathered.
pub struct BlockState {
    pub blocks: Seq<Seq<char>>,
    pub current: Seq<char>,
}

/// Taking one non-blank (right-trimmed) line: a line that opens a block
/// closes the current one, and the line joins the current block.
pub open spec fn take_line(st: BlockState, line: Seq<char>) -> BlockState {
    let closed = if opens_block(line) && st.current.len() > 0 {
        BlockState { blocks: st.blocks.push(trim(st.current)), current: Seq::empty() }
    } else {
        st
    };
    BlockState {
        blocks: closed.blocks,
        current: if closed.current.len() > 0 {
            closed.current.push('\n') + line
        } else {
            line
        },
    }
}

/// Taking one raw line: its trailing whitespace goes, and a blank line is
/// skipped.
pub open spec fn take_segment(st: BlockState, seg: Seq<char>) -> BlockState {
    let line = trim_end(seg);
    if all_ws(line) {
        st
    } else {
        take_line(st, line)
    }
}

/// The state after taking the given raw lines in order.
pub open spec fn take_segments(segs: Seq<Seq<char>>) -> BlockState
    decreases segs.len(),
{
    if segs.len() == 0 {
        BlockState { blocks: Seq::empty(), current: Seq::empty() }
    } else {
        take_segment(take_segments(segs.drop_last()), segs.last())
    }
}

/// The warning blocks of an error stream: the closed blocks, then the last
/// one if it is not empty.
pub open spec fn warning_blocks(text: Seq<char>) -> Seq<Seq<char>> {
    let st = take_segments(segments(text));
    if st.current.len() > 0 {
        st.blocks.push(trim(st.current))
    } else {
        st.blocks
    }
}

/// Whether a line opens a new warning block.
pub fn starts_new_warning_block(line: &str) -> (r: bool)
    ensures
        r == opens_block(line@),
{
    let v = chars_of(line);
    let a = trim_start_index(v.as_slice());
    let t = slice_range(v.as_slice(), a, v.len());
    proof {
        assert(t@ == trim_start(line@));
    }
    let p1 = chars_of("solc frontend failed:");
    let p2 = chars_of("] solc frontend failed:");
    let p3 = chars_of("analysis command failed:");
    let p4 = chars_of("analysis cancelled:");
    if starts_with_chars(t.as_slice(), p1.as_slice()) {
        return true;
    }
    if t.len() > 0 && t[0] == '[' && crate::text::contains_chars(t.as_slice(), p2.as_slice()) {
        return true;
    }
    starts_with_chars(t.as_slice(), p3.as_slice()) || starts_with_chars(
        t.as_slice(),
        p4.as_slice(),
    )
}

/// Whether every character is whitespace.
fn all_whitespace(s: &[char]) -> (r: bool)
    ensures
        r == all_ws(s@),
{
    let mut i: usize = 0;
    while i < s.len()
        invariant
            i <= s@.len(),
            forall|j: int| 0 <= j < i ==> is_ws(#[trigger] s@[j]),
        decreases s@.len() - i,
    {
        if !crate::text::is_whitespace(s[i]) {
            return false;
        }
        i = i + 1;
    }
    true
}

/// Splits a text at its line feeds.
fn split_segments(s: &[char]) -> (res: Vec<Vec<char>>)
    ensures
        res@.len() == segments(s@).len(),
        forall|i: int| 0 <= i < res@.len() ==> (#[trigger] res@[i])@ == segments(s@)[i],
{
    let mut res: Vec<Vec<char>> = Vec::new();
    let mut cur: Vec<char> = Vec::new();
    let mut i: usize = 0;
    proof {
        reveal_with_fuel(segments, 1);
        assert(s@.take(0) =~= Seq::<char>::empty());
    }
    while i < s.len()
        invariant
            i <= s@.len(),
            segments(s@.take(i as int)).len() == res@.len() + 1,
            forall|j: int|
                0 <= j < res@.len() ==> (#[trigger] res@[j])@ == segments(s@.take(i as int))[j],
            cur@ == segments(s@.take(i as int)).last(),
        decreases s@.len() - i,
    {
        let c = s[i];
        proof {
            let t = s@.take(i + 1);
            assert(t.drop_last() == s@.take(i as int));
            assert(t.last() == c);
        }
        if c == '\n' {
            let mut done: Vec<char> = Vec::new();
            std::mem::swap(&mut done, &mut cur);
            res.push(done);
        } else {
            cur.push(c);
        }
        i = i + 1;
    }
    assert(s@.take(s@.len() as int) == s@);
    res.push(cur);
    res
}

/// Cuts an error stream into warning blocks: a new block starts at each line
/// that opens one; blank lines are dropped, trailing whitespace of each line
/// goes, and each block is trimmed.
pub fn extract_warning_blocks(stderr: &str) -> (res: Vec<String>)
    ensures
        res@.len() == warning_blocks(stderr@).len(),
        forall|i: int| 0 <= i < res@.len() ==> (#[trigger] res@[i])@ == warning_blocks(stderr@)[i],
{
    let text = chars_of(stderr);
    let segs = split_segments(text.as_slice());
    let ghost all = segments(stderr@);
    let mut blocks: Vec<String> = Vec::new();
    let mut current: Vec<char> = Vec::new();
    let mut k: usize = 0;
    while k < segs.len()
        invariant
            k <= segs@.len(),
            segs@.len() == all.len(),
            forall|i: int| 0 <= i < segs@.len() ==> (#[trigger] segs@[i])@ == all[i],
            blocks@.len() == take_segments(all.take(k as int)).blocks.len(),
            forall|i: int|
                0 <= i < blocks@.len() ==> (#[trigger] blocks@[i])@ == take_segments(
                    all.take(k as int),
                ).blocks[i],
            current@ == take_segments(all.take(k as int)).current,
        decreases segs@.len() - k,
    {
        let seg = &segs[k];
        let e = trim_end_index(seg.as_slice());
        let line = slice_range(seg.as_slice(), 0, e);
        let ghost st = take_segments(all.take(k as int));
        proof {
            assert(all.take(k + 1).drop_last() == all.take(k as int));
            assert(all.take(k + 1).last() == all[k as int]);
            assert(line@ == trim_end(all[k as int]));
        }
        if !all_whitespace(line.as_slice()) {
            let line_str = string_from_chars(line.as_slice());
            if starts_new_warning_block(line_str.as_str()) && current.len() > 0 {
                let t = trim_chars(current.as_slice());
                blocks.push(string_from_chars(t.as_slice()));
                current = Vec::new();
            }
            if current.len() > 0 {
                current.push('\n');
            }
            let ghost before = current@;
            let mut m: usize = 0;
            while m < line.len()
                invariant
                    m <= line@.len(),
                    current@ == before + line@.take(m as int),
                decreases line@.len() - m,
            {
                current.push(line[m]);
                m = m + 1;
                assert(current@ == before + line@.take(m as int));
            }
            assert(line@.take(line@.len() as int) == line@);
        }
        k = k + 1;
    }
    assert(all.take(segs@.len() as int) == all);
    if current.len() > 0 {
        let t = trim_chars(current.as_slice());
        blocks.push(string_from_chars(t.as_slice()));
    }
    blocks
}

proof fn lemma_not_all_ws_trim(s: Seq<char>)
    requires
        !all_ws(s),
    ensures
        trim(s).len() > 0,
{
    let i = choose|i: int| 0 <= i < s.len() && !is_ws(s[i]);
    lemma_trim_start_contains(s, i);
    let t = trim_start(s);
    let j = choose|j: int| 0 <= j < t.len() && !is_ws(t[j]);
    lemma_trim_end_contains(t, j);
}

proof fn lemma_trim_start_contains(s: Seq<char>, i: int)
    requires
        0 <= i < s.len(),
        !is_ws(s[i]),
    ensures
        exists|j: int| 0 <= j < trim_start(s).len() && !is_ws(trim_start(s)[j]),
    decreases s.len(),
{
    if s.len() > 0 && is_ws(s[0]) {
        assert(i > 0);
        assert(s.drop_first()[i - 1] == s[i]);
        lemma_trim_start_contains(s.drop_first(), i - 1);
        assert(trim_start(s) == trim_start(s.drop_first()));
    } else {
        assert(trim_start(s) == s);
        assert(!is_ws(trim_start(s)[i]));
    }
}

proof fn lemma_trim_end_contains(s: Seq<char>, i: int)
    requires
        0 <= i < s.len(),
        !is_ws(s[i]),
    ensures
        trim_end(s).len() > 0,
    decreases s.len(),
{
    if s.len() > 0 && is_ws(s.last()) {
        assert(i < s.len() - 1);
        assert(s.drop_last()[i] == s[i]);
        lemma_trim_end_contains(s.drop_last(), i);
    }
}

proof fn lemma_take_segments_blocks(segs: Seq<Seq<char>>)
    ensures
        take_segments(segs).current.len() > 0 ==> !all_ws(take_segments(segs).current),
        forall|i: int|
            0 <= i < take_segments(segs).blocks.len() ==> {
                let b = #[trigger] take_segments(segs).blocks[i];
                b.len() > 0 && !is_ws(b[0]) && !is_ws(b.last())
            },
    decreases segs.len(),
{
    if segs.len() > 0 {
        lemma_take_segments_blocks(segs.drop_last());
        let st = take_segments(segs.drop_last());
        let line = trim_end(segs.last());
        if !all_ws(line) {
            if opens_block(line) && st.current.len() > 0 {
                lemma_not_all_ws_trim(st.current);
                lemma_trim_bounds(st.current);
            }
            let closed = if opens_block(line) && st.current.len() > 0 {
                BlockState { blocks: st.blocks.push(trim(st.current)), current: Seq::empty() }
            } else {
                st
            };
            let cur = if closed.current.len() > 0 {
                closed.current.push('\n') + line
            } else {
                line
            };
            let k = choose|k: int| 0 <= k < line.len() && !is_ws(line[k]);
            if closed.current.len() > 0 {
                assert(cur[closed.current.len() + 1 + k] == line[k]);
            } else {
                assert(cur[k] == line[k]);
            }
        }
    }
}

/// Every warning block is non-empty, and neither begins nor ends with
/// whitespace.
pub proof fn lemma_warning_blocks_trimmed(text: Seq<char>)
    ensures
        forall|i: int|
            0 <= i < warning_blocks(text).len() ==> {
                let b = #[trigger] warning_blocks(text)[i];
                b.len() > 0 && !is_ws(b[0]) && !is_ws(b.last())
            },
{
    let st = take_segments(segments(text));
    lemma_take_segments_blocks(segments(text));
    if st.current.len() > 0 {
        lemma_not_all_ws_trim(st.current);
        lemma_trim_bounds(st.current);
    }
}

/// Lines put back together with a line feed between each two.
pub open spec fn join_lines(ls: Seq<Seq<char>>) -> Seq<char>
    decreases ls.len(),
{
    if ls.len() == 0 {
        Seq::empty()
    } else if ls.len() == 1 {
        ls[0]
    } else {
        join_lines(ls.drop_last()).push('\n') + ls.last()
    }
}

/// The raw lines without their trailing whitespace, blank ones left out.
pub open spec fn kept_lines(segs: Seq<Seq<char>>) -> Seq<Seq<char>> {
    segs.map_values(|s: Seq<char>| trim_end(s)).filter(|l: Seq<char>| !all_ws(l))
}

/// The non-blank lines of a text, each without its trailing whitespace.
pub open spec fn content_lines(text: Seq<char>) -> Seq<Seq<char>> {
    kept_lines(segments(text))
}

/// `gs` cuts `lines` into consecutive non-empty groups, each group after the
/// first opening with a block-opening line, and no other line opening one.
pub open spec fn groups_lines(gs: Seq<Seq<Seq<char>>>, lines: Seq<Seq<char>>) -> bool {
    &&& gs.flatten() == lines
    &&& forall|k: int| 0 <= k < gs.len() ==> (#[trigger] gs[k]).len() > 0
    &&& forall|k: int| 1 <= k < gs.len() ==> opens_block(#[trigger] gs[k][0])
    &&& forall|k: int, j: int|
        0 <= k < gs.len() && 1 <= j < gs[k].len() ==> !opens_block(#[trigger] gs[k][j])
}

/// The groups closed so far and the group being gathered, after `segs`.
proof fn lemma_take_segments_groups(segs: Seq<Seq<char>>) -> (r: (
    Seq<Seq<Seq<char>>>,
    Seq<Seq<char>>,
))
    ensures
        ({
            let (gs, cur) = r;
            let st = take_segments(segs);
            &&& gs.len() == st.blocks.len()
            &&& forall|k: int| 0 <= k < gs.len() ==> st.blocks[k] == trim(join_lines(#[trigger] gs[k]))
            &&& st.current == join_lines(cur)
            &&& (st.current.len() > 0 <==> cur.len() > 0)
            &&& cur.len() == 0 ==> gs.len() == 0
            &&& gs.flatten() + cur == kept_lines(segs)
            &&& forall|k: int| 0 <= k < gs.len() ==> (#[trigger] gs[k]).len() > 0
            &&& forall|k: int| 1 <= k < gs.len() ==> opens_block(#[trigger] gs[k][0])
            &&& gs.len() > 0 ==> opens_block(cur[0])
            &&& forall|k: int, j: int|
                0 <= k < gs.len() && 1 <= j < gs[k].len() ==> !opens_block(#[trigger] gs[k][j])
            &&& forall|j: int| 1 <= j < cur.len() ==> !opens_block(#[trigger] cur[j])
        }),
    decreases segs.len(),
{
    if segs.len() == 0 {
        assert(kept_lines(segs) =~= Seq::<Seq<char>>::empty()) by {
            reveal(Seq::filter);
        }
        assert(Seq::<Seq<Seq<char>>>::empty().flatten() =~= Seq::<Seq<char>>::empty());
        (Seq::empty(), Seq::empty())
    } else {
        let prev = segs.drop_last();
        let (gs, cur) = lemma_take_segments_groups(prev);
        let st = take_segments(prev);
        let s = segs.last();
        let line = trim_end(s);
        let mapped = prev.map_values(|x: Seq<char>| trim_end(x));
        assert(segs.map_values(|x: Seq<char>| trim_end(x)) =~= mapped.push(line));
        mapped.lemma_filter_push(line, |l: Seq<char>| !all_ws(l));
        if all_ws(line) {
            (gs, cur)
        } else {
            assert(kept_lines(segs) == kept_lines(prev).push(line));
            assert(line.len() > 0);
            if opens_block(line) && st.current.len() > 0 {
                let gs2 = gs.push(cur);
                let cur2 = seq![line];
                gs.lemma_flatten_push(cur);
                assert(gs2.flatten() + cur2 =~= kept_lines(segs));
                assert forall|k: int| 1 <= k < gs2.len() implies opens_block(#[trigger] gs2[k][0]) by {
                    if k < gs.len() {
                        assert(gs2[k] == gs[k]);
                    }
                }
                assert forall|k: int, j: int|
                    0 <= k < gs2.len() && 1 <= j < gs2[k].len() implies !opens_block(
                    #[trigger] gs2[k][j],
                ) by {
                    if k < gs.len() {
                        assert(gs2[k] == gs[k]);
                    } else {
                        assert(gs2[k] == cur);
                    }
                }
                assert forall|k: int| 0 <= k < gs2.len() implies take_segments(segs).blocks[k]
                    == trim(join_lines(#[trigger] gs2[k])) by {
                    if k < gs.len() {
                        assert(gs2[k] == gs[k]);
                    }
                }
                (gs2, cur2)
            } else {
                let cur2 = cur.push(line);
                assert(cur2.drop_last() == cur);
                assert((gs.flatten() + cur).push(line) =~= gs.flatten() + cur2);
                assert(take_segments(segs).current == join_lines(cur2));
                assert forall|j: int| 1 <= j < cur2.len() implies !opens_block(
                    #[trigger] cur2[j],
                ) by {
                    if j < cur.len() {
                        assert(cur2[j] == cur[j]);
                    }
                }
                (gs, cur2)
            }
        }
    }
}

/// The warning blocks cut the non-blank lines of the error stream (each
/// without its trailing whitespace), in order, into groups: every group after
/// the first begins with a line that opens a block, no other line opens one,
/// and each block is its group's lines joined by line feeds and trimmed.
pub proof fn lemma_warning_blocks_group_lines(text: Seq<char>)
    ensures
        exists|gs: Seq<Seq<Seq<char>>>|
            {
                &&& groups_lines(gs, content_lines(text))
                &&& gs.len() == warning_blocks(text).len()
                &&& forall|k: int|
                    0 <= k < gs.len() ==> warning_blocks(text)[k] == trim(
                        join_lines(#[trigger] gs[k]),
                    )
            },
{
    let (gs, cur) = lemma_take_segments_groups(segments(text));
    let st = take_segments(segments(text));
    if cur.len() > 0 {
        let full = gs.push(cur);
        gs.lemma_flatten_push(cur);
        assert forall|k: int| 1 <= k < full.len() implies opens_block(#[trigger] full[k][0]) by {
            if k < gs.len() {
                assert(full[k] == gs[k]);
            }
        }
        assert forall|k: int, j: int|
            0 <= k < full.len() && 1 <= j < full[k].len() implies !opens_block(
            #[trigger] full[k][j],
        ) by {
            if k < gs.len() {
                assert(full[k] == gs[k]);
            } else {
                assert(full[k] == cur);
            }
        }
        assert forall|k: int| 0 <= k < full.len() implies warning_blocks(text)[k] == trim(
            join_lines(#[trigger] full[k]),
        ) by {
            if k < gs.len() {
                assert(full[k] == gs[k]);
            }
        }
        assert(groups_lines(full, content_lines(text)));
    } else {
        assert(gs.flatten() + cur =~= gs.flatten());
        assert(groups_lines(gs, content_lines(text)));
    }
}

proof fn lemma_starts_with_contains(t: Seq<char>, p: Seq<char>)
    requires
        starts_with(t, p),
    ensures
        contains(t, p),
{
    assert(occurs_at(t, 0, p));
}

proof fn lemma_contains_suffix_of_needle(t: Seq<char>, needle: Seq<char>, k: int)
    requires
        contains(t, needle),
        0 <= k <= needle.len(),
    ensures
        contains(t, needle.subrange(k, needle.len() as int)),
{
    let i = choose|i: int| occurs_at(t, i, needle);
    let tail = needle.subrange(k, needle.len() as int);
    assert(t.subrange(i + k, i + k + tail.len()) =~= tail) by {
        assert forall|j: int| 0 <= j < tail.len() implies t.subrange(i + k, i + k + tail.len())[j]
            == tail[j] by {
            assert(t.subrange(i, i + needle.len())[k + j] == needle[k + j]);
        }
    }
    assert(occurs_at(t, i + k, tail));
}

/// Which lines open a warning block, in terms of the line alone: past its
/// leading whitespace, a line that starts a solc failure, a failed analysis
/// command or a cancelled analysis opens one, and so does a line tagged with
/// a target in brackets whose text holds "] solc frontend failed:". Every
/// line that opens one holds "solc frontend failed:" or starts with one of
/// the two analysis messages; in particular a bracketed line without a solc
/// failure (a note, say) continues the block before it.
pub proof fn lemma_block_opening_lines(line: Seq<char>)
    ensures
        ({
            let t = trim_start(line);
            &&& starts_with(t, "solc frontend failed:"@) ==> opens_block(line)
            &&& starts_with(t, "analysis command failed:"@) ==> opens_block(line)
            &&& starts_with(t, "analysis cancelled:"@) ==> opens_block(line)
            &&& (t.len() > 0 && t[0] == '[' && contains(t, "] solc frontend failed:"@))
                ==> opens_block(line)
            &&& opens_block(line) ==> (contains(t, "solc frontend failed:"@) || starts_with(
                t,
                "analysis command failed:"@,
            ) || starts_with(t, "analysis cancelled:"@))
            &&& (t.len() > 0 && t[0] == '[' && !contains(t, "solc frontend failed:"@))
                ==> !opens_block(line)
            &&& ((t.len() == 0 || t[0] != '[') && !starts_with(t, "solc frontend failed:"@)
                && !starts_with(t, "analysis command failed:"@) && !starts_with(
                t,
                "analysis cancelled:"@,
            )) ==> !opens_block(line)
        }),
{
    let t = trim_start(line);
    reveal_strlit("solc frontend failed:");
    reveal_strlit("] solc frontend failed:");
    reveal_strlit("analysis command failed:");
    reveal_strlit("analysis cancelled:");
    assert("] solc frontend failed:"@.len() == 23 && "solc frontend failed:"@.len() == 21);
    assert("] solc frontend failed:"@.subrange(2, 23) =~= "solc frontend failed:"@);
    if starts_with(t, "solc frontend failed:"@) {
        lemma_starts_with_contains(t, "solc frontend failed:"@);
    }
    if contains(t, "] solc frontend failed:"@) {
        lemma_contains_suffix_of_needle(t, "] solc frontend failed:"@, 2);
    }
    if t.len() > 0 && t[0] == '[' {
        if starts_with(t, "analysis command failed:"@) {
            assert(t.subrange(0, 24)[0] == t[0]);
        }
        if starts_with(t, "analysis cancelled:"@) {
            assert(t.subrange(0, 19)[0] == t[0]);
        }
        if starts_with(t, "solc frontend failed:"@) {
            assert(t.subrange(0, 21)[0] == t[0]);
        }
    }
}

proof fn lemma_trim_start_after_ws(ws: Seq<char>, line: Seq<char>)
    requires
        all_ws(ws),
    ensures
        trim_start(ws + line) == trim_start(line),
    decreases ws.len(),
{
    if ws.len() > 0 {
        let rest = ws.drop_first();
        assert((ws + line).drop_first() =~= rest + line);
        assert((ws + line)[0] == ws[0]);
        lemma_trim_start_after_ws(rest, line);
    } else {
        assert(ws + line =~= line);
    }
}

/// Whitespace in front of a line does not change whether it opens a
/// warning block.
pub proof fn lemma_leading_whitespace_keeps_opening(ws: Seq<char>, line: Seq<char>)
    requires
        all_ws(ws),
    ensures
        opens_block(ws + line) == opens_block(line),
{
    lemma_trim_start_after_ws(ws, line);
}

proof fn lemma_contains_after_prefix(p: Seq<char>, w: Seq<char>, needle: Seq<char>)
    requires
        contains(w, needle),
    ensures
        contains(p + w, needle),
{
    let i = choose|i: int| occurs_at(w, i, needle);
    let s = p + w;
    assert(s.subrange(p.len() + i, p.len() + i + needle.len()) =~= w.subrange(
        i,
        i + needle.len(),
    ));
    assert(occurs_at(s, p.len() + i, needle));
}

/// How a warning is classified, in terms of its text: a text holding a solc
/// failure and the path of one of the known benchmark files anywhere (so
/// also behind a target tag) is a known benchmark compatibility warning,
/// hidden by default; any other text holding a solc failure is a shown
/// compatibility warning; the rest are shown general warnings. Putting
/// anything in front of a warning (a target tag) keeps a known benchmark
/// failure known, and a solc failure a compatibility warning.
pub proof fn lemma_warning_classes(w: Seq<char>, tag: Seq<char>)
    ensures
        ({
            let solc = contains(w, "solc frontend failed:"@);
            let known = contains(
                w,
                "Benchmarks/Not-so-smart/not-so-smart-contracts-master/denial_of_service/list_dos.sol"@,
            ) || contains(
                w,
                "Benchmarks/Not-so-smart/not-so-smart-contracts-master/reentrancy/DAO_source_code/DAO.sol"@,
            ) || contains(
                w,
                "Benchmarks/Not-so-smart/not-so-smart-contracts-master/unprotected_function/WalletLibrary_source_code/WalletLibrary.sol"@,
            );
            &&& solc && known ==> warning_class(w) == (
                "Known Benchmark Compatibility Warning"@,
                "compatibility"@,
                true,
            )
            &&& solc && !known ==> warning_class(w) == (
                "Compatibility Warning"@,
                "compatibility"@,
                false,
            )
            &&& !solc ==> warning_class(w) == ("Analyzer Warning"@, "general"@, false)
            &&& solc && known ==> warning_class(tag + w).2
            &&& solc ==> warning_class(tag + w).1 == "compatibility"@
        }),
{
    lemma_suppressed_iff_known_benchmark(w);
    if contains(w, "solc frontend failed:"@) {
        lemma_contains_after_prefix(tag, w, "solc frontend failed:"@);
    }
    if contains(w, known_path_1()) {
        lemma_contains_after_prefix(tag, w, known_path_1());
    }
    if contains(w, known_path_2()) {
        lemma_contains_after_prefix(tag, w, known_path_2());
    }
    if contains(w, known_path_3()) {
        lemma_contains_after_prefix(tag, w, known_path_3());
    }
}

/// A warning as the UI shows it.
pub struct WebWarning {
    pub title: String,
    pub message: String,
    pub category: String,
    pub suppressed_by_default: bool,
}

/// Benchmark files whose solc failures are known and hidden by default.
pub open spec fn known_path_1() -> Seq<char> {
    "Benchmarks/Not-so-smart/not-so-smart-contracts-master/denial_of_service/list_dos.sol"@
}

pub open spec fn known_path_2() -> Seq<char> {
    "Benchmarks/Not-so-smart/not-so-smart-contracts-master/reentrancy/DAO_source_code/DAO.sol"@
}

pub open spec fn known_path_3() -> Seq<char> {
    "Benchmarks/Not-so-smart/not-so-smart-contracts-master/unprotected_function/WalletLibrary_source_code/WalletLibrary.sol"@
}

/// A solc failure on one of the known benchmark files.
pub open spec fn is_known_benchmark(w: Seq<char>) -> bool {
    &&& contains(w, "solc frontend failed:"@)
    &&& (contains(w, known_path_1()) || contains(w, known_path_2()) || contains(w, known_path_3()))
}

/// Whether a warning is a solc failure on one of the known benchmark files.
pub fn is_known_benchmark_compatibility_warning(warning: &str) -> (r: bool)
    ensures
        r == is_known_benchmark(warning@),
{
    str_contains(warning, "solc frontend failed:") && (str_contains(
        warning,
        "Benchmarks/Not-so-smart/not-so-smart-contracts-master/denial_of_service/list_dos.sol",
    ) || str_contains(
        warning,
        "Benchmarks/Not-so-smart/not-so-smart-contracts-master/reentrancy/DAO_source_code/DAO.sol",
    ) || str_contains(
        warning,
        "Benchmarks/Not-so-smart/not-so-smart-contracts-master/unprotected_function/WalletLibrary_source_code/WalletLibrary.sol",
    ))
}

/// The title, category and default suppression of a warning text.
pub open spec fn warning_class(w: Seq<char>) -> (Seq<char>, Seq<char>, bool) {
    if is_known_benchmark(w) {
        ("Known Benchmark Compatibility Warning"@, "compatibility"@, true)
    } else if contains(w, "solc frontend failed:"@) {
        ("Compatibility Warning"@, "compatibility"@, false)
    } else {
        ("Analyzer Warning"@, "general"@, false)
    }
}

/// `ww` shows the warning text `w` as `warning_class` says.
pub open spec fn shows_warning(ww: WebWarning, w: Seq<char>) -> bool {
    let (title, category, suppressed) = warning_class(w);
    &&& ww.message@ == w
    &&& ww.title@ == title
    &&& ww.category@ == category
    &&& ww.suppressed_by_default == suppressed
}

/// Classifies one warning: known benchmark failures are suppressed by
/// default, other solc failures are compatibility warnings, the rest are
/// general analyzer warnings.
pub fn classify_warning(warning: String) -> (res: WebWarning)
    ensures
        shows_warning(res, warning@),
{
    if is_known_benchmark_compatibility_warning(warning.as_str()) {
        return WebWarning {
            title: String::from_str("Known Benchmark Compatibility Warning"),
            message: warning,
            category: String::from_str("compatibility"),
            suppressed_by_default: true,
        };
    }
    if str_contains(warning.as_str(), "solc frontend failed:") {
        return WebWarning {
            title: String::from_str("Compatibility Warning"),
            message: warning,
            category: String::from_str("compatibility"),
            suppressed_by_default: false,
        };
    }
    WebWarning {
        title: String::from_str("Analyzer Warning"),
        message: warning,
        category: String::from_str("general"),
        suppressed_by_default: false,
    }
}

/// Classifies each warning, in order.
pub fn classify_warnings(warnings: Vec<String>) -> (res: Vec<WebWarning>)
    ensures
        res@.len() == warnings@.len(),
        forall|i: int| 0 <= i < res@.len() ==> shows_warning(#[trigger] res@[i], warnings@[i]@),
{
    let ghost orig = warnings@;
    assert(orig.skip(0) == orig);
    let mut rest = warnings;
    let mut res: Vec<WebWarning> = Vec::new();
    while rest.len() > 0
        invariant
            res@.len() + rest@.len() == orig.len(),
            forall|i: int| 0 <= i < res@.len() ==> shows_warning(#[trigger] res@[i], orig[i]@),
            rest@ == orig.skip(res@.len() as int),
        decreases rest@.len(),
    {
        let w = rest.remove(0);
        assert(w == orig[res@.len() as int]);
        assert(rest@ == orig.skip(res@.len() as int + 1));
        res.push(classify_warning(w));
    }
    res
}

/// A warning is hidden by default exactly when it is a solc failure on a
/// known benchmark file; every solc failure is a compatibility warning.
pub proof fn lemma_suppressed_iff_known_benchmark(w: Seq<char>)
    ensures
        warning_class(w).2 <==> is_known_benchmark(w),
        contains(w, "solc frontend failed:"@) ==> warning_class(w).1 == "compatibility"@,
{
}

} // verus!
