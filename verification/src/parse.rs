//! Verified parser for the analysis utility's textual report.
//!
//! A report holds up to two labeled blocks: the direct-dependency block and
//! the delay-load block.  Each block begins after its marker line and runs
//! to the first blank line or the end of the text; every line inside is one
//! module name, surrounded by arbitrary whitespace.  A missing marker means
//! an empty block, not an error.

use vstd::prelude::*;

use crate::text::{
    line_spans_from, span_eq, spans_content, split_lines, str_chars, trim, trim_span,
};

verus! {

/// Marker line that opens the direct-dependency block.
pub open spec fn dep_marker() -> Seq<char> {
    "Image has the following dependencies:"@
}

/// Marker line that opens the delay-load block.
pub open spec fn delay_marker() -> Seq<char> {
    "Image has the following delay load dependencies:"@
}

/// Index of the first line whose trimmed content is `marker`, or -1.
pub open spec fn find_marker(lines: Seq<Seq<char>>, marker: Seq<char>) -> int
    decreases lines.len(),
{
    if lines.len() == 0 {
        -1
    } else if trim(lines[0]) == marker {
        0
    } else {
        let r = find_marker(lines.drop_first(), marker);
        if r < 0 {
            -1
        } else {
            r + 1
        }
    }
}

pub proof fn lemma_find_marker(lines: Seq<Seq<char>>, marker: Seq<char>)
    ensures
        find_marker(lines, marker) == -1 ==> forall|i: int|
            0 <= i < lines.len() ==> trim(#[trigger] lines[i]) != marker,
        find_marker(lines, marker) >= 0 ==> find_marker(lines, marker) < lines.len() && trim(
            lines[find_marker(lines, marker)],
        ) == marker,
        find_marker(lines, marker) >= 0 ==> forall|i: int|
            0 <= i < find_marker(lines, marker) ==> trim(#[trigger] lines[i]) != marker,
    decreases lines.len(),
{
    if lines.len() == 0 {
    } else if trim(lines[0]) == marker {
    } else {
        lemma_find_marker(lines.drop_first(), marker);
        let r = find_marker(lines.drop_first(), marker);
        if r < 0 {
            assert forall|i: int| 0 <= i < lines.len() implies trim(#[trigger] lines[i])
                != marker by {
                if i > 0 {
                    assert(lines.drop_first()[i - 1] == lines[i]);
                }
            }
        } else {
            assert(lines.drop_first()[r] == lines[r + 1]);
            assert forall|i: int| 0 <= i < find_marker(lines, marker) implies trim(
                #[trigger] lines[i],
            ) != marker by {
                if i > 0 {
                    assert(lines.drop_first()[i - 1] == lines[i]);
                }
            }
        }
    }
}

/// Trimmed entries of the block that opens after line `i`: the lines that
/// follow, up to the first blank line or the end of the text.
pub open spec fn block_after(lines: Seq<Seq<char>>, i: int) -> Seq<Seq<char>>
    decreases lines.len() - i,
{
    if i < 0 || i + 1 >= lines.len() || trim(lines[i + 1]).len() == 0 {
        Seq::empty()
    } else {
        seq![trim(lines[i + 1])] + block_after(lines, i + 1)
    }
}

/// The block that `marker` opens: empty when the marker is absent.
pub open spec fn block_of(lines: Seq<Seq<char>>, marker: Seq<char>) -> Seq<Seq<char>> {
    let m = find_marker(lines, marker);
    if m < 0 {
        Seq::empty()
    } else {
        block_after(lines, m)
    }
}

/// The dependency names a report declares: the direct block's entries
/// followed by the delay-load block's entries, in report order.
pub open spec fn parse_report(t: Seq<char>) -> Seq<Seq<char>> {
    block_of(split_lines(t), dep_marker()) + block_of(split_lines(t), delay_marker())
}

/// Append the entries of the block `marker_lit` opens in `report`.
fn push_block(
    deps: &mut Vec<String>,
    report: &str,
    cs: &Vec<char>,
    spans: &Vec<(usize, usize)>,
    marker_lit: &str,
)
    requires
        cs@ == report@,
        forall|k: int| 0 <= k < spans@.len() ==> #[trigger] spans@[k].0 <= spans@[k].1
            && spans@[k].1 <= cs@.len(),
        spans_content(cs@, spans@) == split_lines(cs@),
    ensures
        final(deps).deep_view() == old(deps).deep_view() + block_of(
            split_lines(report@),
            marker_lit@,
        ),
{
    let ghost lines = split_lines(cs@);
    let ghost start = deps.deep_view();
    let mlit: Vec<char> = str_chars(marker_lit);
    let n: usize = spans.len();
    let mut m: usize = 0;
    let mut found: bool = false;
    while m < n && !found
        invariant
            m <= n,
            n == spans@.len(),
            cs@ == report@,
            forall|k: int| 0 <= k < spans@.len() ==> #[trigger] spans@[k].0 <= spans@[k].1
                && spans@[k].1 <= cs@.len(),
            spans_content(cs@, spans@) == lines,
            lines == split_lines(cs@),
            mlit@ == marker_lit@,
            forall|k: int| 0 <= k < m ==> trim(#[trigger] lines[k]) != marker_lit@,
            found ==> m < n && trim(lines[m as int]) == marker_lit@,
        decreases n - m + (if found { 0int } else { 1int }),
    {
        let (a, b) = spans[m];
        let (ta, tb) = trim_span(cs, a, b);
        proof {
            assert(lines[m as int] == cs@.subrange(a as int, b as int));
        }
        if span_eq(cs, ta, tb, &mlit) {
            found = true;
        } else {
            m = m + 1;
        }
    }
    proof {
        lemma_find_marker(lines, marker_lit@);
        if found {
            assert(find_marker(lines, marker_lit@) == m as int);
        } else {
            assert(find_marker(lines, marker_lit@) == -1);
        }
    }
    if !found {
        proof {
            assert(deps.deep_view() =~= start + block_of(split_lines(report@), marker_lit@));
        }
        return ;
    }
    let mut j: usize = m + 1;
    let mut done: bool = false;
    while j < n && !done
        invariant
            m < j <= n,
            n == spans@.len(),
            cs@ == report@,
            forall|k: int| 0 <= k < spans@.len() ==> #[trigger] spans@[k].0 <= spans@[k].1
                && spans@[k].1 <= cs@.len(),
            spans_content(cs@, spans@) == lines,
            lines == split_lines(cs@),
            block_after(lines, m as int) == deps.deep_view().skip(start.len() as int) + (
            if done {
                Seq::<Seq<char>>::empty()
            } else {
                block_after(lines, j - 1)
            }),
            deps.deep_view().len() >= start.len(),
            deps.deep_view().subrange(0, start.len() as int) == start,
        decreases n - j + (if done { 0int } else { 1int }),
    {
        let (a, b) = spans[j];
        let (ta, tb) = trim_span(cs, a, b);
        proof {
            assert(lines[j as int] == cs@.subrange(a as int, b as int));
        }
        if tb == ta {
            proof {
                assert(trim(lines[j as int]).len() == 0);
            }
            done = true;
        } else {
            let ghost before = deps.deep_view();
            let entry: String = report.substring_char(ta, tb).to_owned();
            deps.push(entry);
            proof {
                assert(deps.deep_view() =~= before.push(trim(lines[j as int])));
                assert(deps.deep_view().skip(start.len() as int) =~= before.skip(
                    start.len() as int,
                ).push(trim(lines[j as int])));
                assert(trim(lines[j as int]).len() != 0);
                assert(block_after(lines, j - 1) == seq![trim(lines[j as int])] + block_after(
                    lines,
                    j as int,
                ));
                assert(before.skip(start.len() as int) + (seq![trim(lines[j as int])]
                    + block_after(lines, j as int)) =~= deps.deep_view().skip(
                    start.len() as int,
                ) + block_after(lines, j as int));
                assert(deps.deep_view().subrange(0, start.len() as int) =~= start);
            }
            j = j + 1;
        }
    }
    proof {
        if !done {
            assert(block_after(lines, j - 1) =~= Seq::<Seq<char>>::empty());
        }
        assert(deps.deep_view().skip(start.len() as int) + Seq::<Seq<char>>::empty()
            =~= deps.deep_view().skip(start.len() as int));
        assert(deps.deep_view() =~= deps.deep_view().subrange(0, start.len() as int)
            + deps.deep_view().skip(start.len() as int));
        assert(deps.deep_view() =~= start + block_of(split_lines(report@), marker_lit@));
    }
}

/// Parse the raw report text into the ordered dependency-name list: the
/// direct-dependency block's entries first, then the delay-load block's,
/// each name trimmed of surrounding whitespace.
pub fn extract_deps(report: &str) -> (deps: Vec<String>)
    ensures
        deps.deep_view() == parse_report(report@),
{
    let cs: Vec<char> = str_chars(report);
    let spans: Vec<(usize, usize)> = line_spans_from(&cs, 0);
    proof {
        assert(cs@.skip(0) =~= cs@);
    }
    let mut deps: Vec<String> = Vec::new();
    push_block(&mut deps, report, &cs, &spans, "Image has the following dependencies:");
    push_block(
        &mut deps,
        report,
        &cs,
        &spans,
        "Image has the following delay load dependencies:",
    );
    proof {
        assert(deps.deep_view() =~= parse_report(report@));
    }
    deps
}

} // verus!
