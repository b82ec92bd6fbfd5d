//! Updating the flake inputs: what nix and nh report, what is committed and
//! noted, and the order in which an update runs, stops, and is taken back.

use vstd::prelude::*;

use crate::render::{strip_escapes, without_escapes};
use crate::text::{
    chars_of, has_prefix, join, join_lines, last_index, lines, rsplit_once, split_lines,
    starts_with, text_of, trim_end, trimmed_len,
};

verus! {

// ---------------------------------------------------------------------------
// What nix and nh report
// ---------------------------------------------------------------------------

/// What nix marks each input it changed with.
pub open spec fn bullet() -> Seq<char> {
    seq!['\u{2022}']
}

/// How nh names the generation being replaced, and so where its diff opens.
pub open spec fn outgoing() -> Seq<char> {
    seq!['<', '<', '<']
}

/// The last of the totals nh closes its diff with.
pub open spec fn total_diff() -> Seq<char> {
    seq!['D', 'I', 'F', 'F', ':']
}

/// What was left standing of a line drawn over itself from its start: what
/// follows its last carriage return.
pub open spec fn standing(line: Seq<char>) -> Seq<char> {
    match rsplit_once(line, '\r') {
        Some((_, rest)) => rest,
        None => line,
    }
}

/// Where the first line opening with `p` stands, or -1 where none does.
pub open spec fn first_opening(ls: Seq<Seq<char>>, p: Seq<char>) -> int
    decreases ls.len(),
{
    if ls.len() == 0 {
        -1
    } else if starts_with(ls[0], p) {
        0
    } else {
        let rest = first_opening(ls.drop_first(), p);
        if rest < 0 {
            -1
        } else {
            rest + 1
        }
    }
}

/// The lines with the empty ones at the end taken off.
pub open spec fn without_trailing_empty(ls: Seq<Seq<char>>) -> Seq<Seq<char>>
    decreases ls.len(),
{
    if ls.len() > 0 && ls.last().len() == 0 {
        without_trailing_empty(ls.drop_last())
    } else {
        ls
    }
}

/// The inputs nix reported changing, in nix's own words: what stood of each
/// line, from the first input nix marked on, without the empty line nix
/// leaves where it wiped its progress bar.
pub open spec fn summary_of(text: Seq<char>) -> Seq<Seq<char>> {
    let ls = lines(text).map_values(|l: Seq<char>| standing(l));
    let k = first_opening(ls, bullet());
    without_trailing_empty(if k < 0 { seq![] } else { ls.skip(k) })
}

/// What the rebuild moved between the two generations, in nh's own words:
/// from the line naming the generation it came from to the totals, both
/// included, each line as it stood once the carriage returns are accounted for.
pub open spec fn rebuild_summary_of(text: Seq<char>) -> Seq<Seq<char>> {
    let ls = lines(text).map_values(|l: Seq<char>| standing(trim_end(l, '\r')));
    let k = first_opening(ls, outgoing());
    if k < 0 {
        seq![]
    } else {
        let rest = ls.skip(k);
        let m = first_opening(rest, total_diff());
        if m < 0 {
            rest
        } else {
            rest.take(m + 1)
        }
    }
}

pub proof fn lemma_first_opening_is(ls: Seq<Seq<char>>, p: Seq<char>, k: int)
    requires
        -1 <= k < ls.len(),
        k >= 0 ==> starts_with(ls[k], p),
        forall|j: int| 0 <= j < ls.len() && (k < 0 || j < k) ==> !starts_with(#[trigger] ls[j], p),
    ensures
        first_opening(ls, p) == k,
    decreases ls.len(),
{
    if ls.len() > 0 && k != 0 {
        let t = ls.drop_first();
        assert forall|j: int| 0 <= j < t.len() && (k - 1 < 0 || j < k - 1) implies !starts_with(#[trigger] t[j], p) by {
            assert(t[j] == ls[j + 1]);
        }
        if k < 0 {
            lemma_first_opening_is(t, p, -1);
        } else {
            lemma_first_opening_is(t, p, k - 1);
        }
    }
}

/// Taking the empty lines off the end keeps a front part of the lines, drops
/// only empty ones, and leaves no empty line last.
proof fn lemma_without_trailing_empty(ls: Seq<Seq<char>>)
    ensures
        without_trailing_empty(ls).len() <= ls.len(),
        without_trailing_empty(ls) == ls.take(without_trailing_empty(ls).len() as int),
        without_trailing_empty(ls).len() > 0 ==> without_trailing_empty(ls).last().len() > 0,
        forall|j: int| without_trailing_empty(ls).len() <= j < ls.len() ==> (#[trigger] ls[j]).len() == 0,
    decreases ls.len(),
{
    if ls.len() > 0 && ls.last().len() == 0 {
        lemma_without_trailing_empty(ls.drop_last());
        let r = without_trailing_empty(ls.drop_last());
        assert(ls.drop_last().take(r.len() as int) =~= ls.take(r.len() as int));
        assert forall|j: int| r.len() <= j < ls.len() implies (#[trigger] ls[j]).len() == 0 by {
            if j < ls.len() - 1 {
                assert(ls.drop_last()[j] == ls[j]);
            }
        }
    } else {
        assert(ls.take(ls.len() as int) =~= ls);
    }
}

/// The summary of what nix changed starts at the first line that opens with
/// nix's bullet and runs on through every later line, other inputs' lines
/// included, short only of the empty lines at the very end; where no line
/// opens with the bullet, there is nothing to summarise.
pub proof fn lemma_summary_runs_from_the_first_input(text: Seq<char>)
    ensures
        ({
            let ls = lines(text).map_values(|l: Seq<char>| standing(l));
            let sm = summary_of(text);
            &&& (forall|j: int| 0 <= j < ls.len() ==> !starts_with(#[trigger] ls[j], bullet())) ==> sm.len() == 0
            &&& forall|k: int|
                0 <= k < ls.len() && #[trigger] starts_with(ls[k], bullet())
                    && (forall|j: int| 0 <= j < k ==> !starts_with(#[trigger] ls[j], bullet())) ==> {
                    &&& 0 < sm.len() <= ls.len() - k
                    &&& forall|i: int| 0 <= i < sm.len() ==> #[trigger] sm[i] == ls[k + i]
                    &&& forall|j: int| k <= j < ls.len() && (#[trigger] ls[j]).len() > 0 ==> j < k + sm.len()
                    &&& sm.last().len() > 0
                }
        }),
{
    let ls = lines(text).map_values(|l: Seq<char>| standing(l));
    let sm = summary_of(text);
    if forall|j: int| 0 <= j < ls.len() ==> !starts_with(#[trigger] ls[j], bullet()) {
        lemma_first_opening_is(ls, bullet(), -1);
    }
    assert forall|k: int|
        0 <= k < ls.len() && #[trigger] starts_with(ls[k], bullet())
            && (forall|j: int| 0 <= j < k ==> !starts_with(#[trigger] ls[j], bullet())) implies {
            &&& 0 < sm.len() <= ls.len() - k
            &&& forall|i: int| 0 <= i < sm.len() ==> #[trigger] sm[i] == ls[k + i]
            &&& forall|j: int| k <= j < ls.len() && (#[trigger] ls[j]).len() > 0 ==> j < k + sm.len()
            &&& sm.last().len() > 0
        } by {
        lemma_first_opening_is(ls, bullet(), k);
        let rest = ls.skip(k);
        lemma_without_trailing_empty(rest);
        assert(sm == without_trailing_empty(rest));
        assert(rest[0] == ls[k]);
        assert(rest[0].len() > 0);
        assert forall|i: int| 0 <= i < sm.len() implies #[trigger] sm[i] == ls[k + i] by {
            assert(sm[i] == rest.take(sm.len() as int)[i]);
            assert(rest[i] == ls[k + i]);
        }
        assert forall|j: int| k <= j < ls.len() && (#[trigger] ls[j]).len() > 0 implies j < k + sm.len() by {
            assert(rest[j - k] == ls[j]);
        }
    }
}

/// The summary of a rebuild runs from the first line that opens with `<<<`
/// through the first line from there on that opens with `DIFF:`, every line
/// between them included, blank ones too; without such a closing line it runs
/// to the end, and without an opening one there is nothing to summarise.
pub proof fn lemma_rebuild_summary_spans_the_diff(text: Seq<char>)
    ensures
        ({
            let ls = lines(text).map_values(|l: Seq<char>| standing(trim_end(l, '\r')));
            let sm = rebuild_summary_of(text);
            &&& (forall|j: int| 0 <= j < ls.len() ==> !starts_with(#[trigger] ls[j], outgoing())) ==> sm.len() == 0
            &&& forall|k: int, m: int|
                #![trigger starts_with(ls[k], outgoing()), starts_with(ls[m], total_diff())]
                0 <= k <= m < ls.len() && starts_with(ls[k], outgoing())
                    && (forall|j: int| 0 <= j < k ==> !starts_with(#[trigger] ls[j], outgoing()))
                    && starts_with(ls[m], total_diff())
                    && (forall|j: int| k <= j < m ==> !starts_with(#[trigger] ls[j], total_diff()))
                    ==> sm == ls.subrange(k, m + 1)
            &&& forall|k: int|
                0 <= k < ls.len() && #[trigger] starts_with(ls[k], outgoing())
                    && (forall|j: int| 0 <= j < k ==> !starts_with(#[trigger] ls[j], outgoing()))
                    && (forall|j: int| k <= j < ls.len() ==> !starts_with(#[trigger] ls[j], total_diff()))
                    ==> sm == ls.skip(k)
        }),
{
    let ls = lines(text).map_values(|l: Seq<char>| standing(trim_end(l, '\r')));
    let sm = rebuild_summary_of(text);
    if forall|j: int| 0 <= j < ls.len() ==> !starts_with(#[trigger] ls[j], outgoing()) {
        lemma_first_opening_is(ls, outgoing(), -1);
    }
    assert forall|k: int, m: int|
        #![trigger starts_with(ls[k], outgoing()), starts_with(ls[m], total_diff())]
        0 <= k <= m < ls.len() && starts_with(ls[k], outgoing())
            && (forall|j: int| 0 <= j < k ==> !starts_with(#[trigger] ls[j], outgoing()))
            && starts_with(ls[m], total_diff())
            && (forall|j: int| k <= j < m ==> !starts_with(#[trigger] ls[j], total_diff()))
            implies sm == ls.subrange(k, m + 1) by {
        lemma_first_opening_is(ls, outgoing(), k);
        let rest = ls.skip(k);
        assert forall|j: int| 0 <= j < rest.len() && j < m - k implies !starts_with(#[trigger] rest[j], total_diff()) by {
            assert(rest[j] == ls[k + j]);
        }
        assert(rest[m - k] == ls[m]);
        lemma_first_opening_is(rest, total_diff(), m - k);
        assert(rest.take(m - k + 1) =~= ls.subrange(k, m + 1));
    }
    assert forall|k: int|
        0 <= k < ls.len() && #[trigger] starts_with(ls[k], outgoing())
            && (forall|j: int| 0 <= j < k ==> !starts_with(#[trigger] ls[j], outgoing()))
            && (forall|j: int| k <= j < ls.len() ==> !starts_with(#[trigger] ls[j], total_diff()))
            implies sm == ls.skip(k) by {
        lemma_first_opening_is(ls, outgoing(), k);
        let rest = ls.skip(k);
        assert forall|j: int| 0 <= j < rest.len() implies !starts_with(#[trigger] rest[j], total_diff()) by {
            assert(rest[j] == ls[k + j]);
        }
        lemma_first_opening_is(rest, total_diff(), -1);
    }
}

/// What was left standing of `line`.
pub(crate) fn standing_of(line: &[char]) -> (r: Vec<char>)
    ensures
        r@ == standing(line@),
{
    let n = line.len();
    match last_index(line, '\r') {
        Some(k) => {
            proof {
                crate::text::lemma_last_of_bounds(line@, '\r');
            }
            let r = crate::text::part_of(line, k + 1, n);
            proof {
                assert(r@ =~= line@.skip(k + 1));
            }
            r
        },
        None => {
            let r = crate::text::part_of(line, 0, n);
            proof {
                assert(r@ =~= line@);
            }
            r
        },
    }
}

/// Takes the empty lines off the end.
fn drop_trailing_empty(summary: &mut Vec<String>)
    ensures
        final(summary).deep_view() == without_trailing_empty(old(summary).deep_view()),
{
    while summary.len() > 0 && summary[summary.len() - 1].as_str().is_empty()
        invariant
            without_trailing_empty(summary.deep_view()) == without_trailing_empty(old(summary).deep_view()),
        decreases summary.len(),
    {
        let ghost before = summary.deep_view();
        summary.pop();
        proof {
            assert(summary.deep_view() =~= before.drop_last());
        }
    }
}

/// The inputs nix reported changing, read from output already stripped of
/// its escapes.
pub fn summarise_plain(text: &str) -> (r: Vec<String>)
    ensures
        r.deep_view() == summary_of(text@),
{
    let cs = chars_of(text);
    let ls = split_lines(cs.as_slice());
    let mark = chars_of("\u{2022}");
    proof {
        reveal_strlit("\u{2022}");
        assert(mark@ =~= bullet());
    }
    let ghost all = ls.deep_view().map_values(|l: Seq<char>| standing(l));
    let mut summary: Vec<String> = Vec::new();
    let mut i: usize = 0;
    while i < ls.len()
        invariant
            ls.deep_view() == lines(text@),
            all == ls.deep_view().map_values(|l: Seq<char>| standing(l)),
            mark@ == bullet(),
            0 <= i <= ls@.len(),
            (summary@.len() == 0 && forall|j: int| 0 <= j < i ==> !starts_with(#[trigger] all[j], bullet()))
                || (0 <= first_opening(all, bullet()) < i
                && summary.deep_view() == all.subrange(first_opening(all, bullet()), i as int)),
        decreases ls.len() - i,
    {
        let line = standing_of(ls[i].as_slice());
        proof {
            assert(ls[i as int]@ == ls.deep_view()[i as int]);
            assert(line@ == all[i as int]);
        }
        let opens = has_prefix(line.as_slice(), mark.as_slice());
        if summary.len() == 0 && !opens {
            i += 1;
            continue;
        }
        proof {
            if summary@.len() == 0 {
                crate::update::lemma_first_opening_is(all, bullet(), i as int);
            }
        }
        let ghost before = summary.deep_view();
        let n = line.len();
        let kept = text_of(line.as_slice(), 0, n);
        summary.push(kept);
        proof {
            assert(kept@ =~= line@);
            assert(summary.deep_view() =~= before.push(line@));
            assert(all.subrange(first_opening(all, bullet()), i + 1) =~= all.subrange(
                first_opening(all, bullet()),
                i as int,
            ).push(all[i as int]));
        }
        i += 1;
    }
    proof {
        if summary@.len() == 0 {
            lemma_first_opening_is(all, bullet(), -1);
            assert(summary.deep_view() =~= Seq::<Seq<char>>::empty());
        } else {
            assert(all.subrange(first_opening(all, bullet()), ls@.len() as int) =~= all.skip(first_opening(all, bullet())));
        }
        assert(lines(text@).map_values(|l: Seq<char>| standing(l)) == all);
    }
    drop_trailing_empty(&mut summary);
    summary
}

/// The inputs nix reported changing, in nix's own words, its styling gone.
pub fn summarise(output: &str) -> (r: Vec<String>)
    ensures
        r.deep_view() == summary_of(without_escapes(output@)),
{
    let text = strip_escapes(output);
    summarise_plain(text.as_str())
}

/// What the rebuild moved between the two generations, read from output
/// already stripped of its escapes.
pub fn summarise_rebuild_plain(text: &str) -> (r: Vec<String>)
    ensures
        r.deep_view() == rebuild_summary_of(text@),
{
    let cs = chars_of(text);
    let ls = split_lines(cs.as_slice());
    let open_mark = chars_of("<<<");
    let close_mark = chars_of("DIFF:");
    proof {
        reveal_strlit("<<<");
        reveal_strlit("DIFF:");
        assert(open_mark@ =~= outgoing());
        assert(close_mark@ =~= total_diff());
    }
    let ghost all = ls.deep_view().map_values(|l: Seq<char>| standing(trim_end(l, '\r')));
    let mut summary: Vec<String> = Vec::new();
    let mut i: usize = 0;
    let mut closed = false;
    while i < ls.len() && !closed
        invariant
            ls.deep_view() == lines(text@),
            all == ls.deep_view().map_values(|l: Seq<char>| standing(trim_end(l, '\r'))),
            open_mark@ == outgoing(),
            close_mark@ == total_diff(),
            0 <= i <= ls@.len(),
            (summary@.len() == 0 && !closed && forall|j: int| 0 <= j < i ==> !starts_with(#[trigger] all[j], outgoing()))
                || ({
                let k = first_opening(all, outgoing());
                &&& 0 <= k < i
                &&& summary.deep_view() == all.subrange(k, i as int)
                &&& closed ==> first_opening(all.skip(k), total_diff()) == i - 1 - k
                &&& !closed ==> forall|j: int| k <= j < i ==> !starts_with(#[trigger] all[j], total_diff())
            }),
        decreases ls.len() - i,
    {
        let raw = ls[i].as_slice();
        let kept_len = trimmed_len(raw, '\r');
        let trimmed = crate::text::part_of(raw, 0, kept_len);
        let line = standing_of(trimmed.as_slice());
        proof {
            assert(ls[i as int]@ == ls.deep_view()[i as int]);
            assert(trimmed@ =~= trim_end(ls[i as int]@, '\r'));
            assert(line@ == all[i as int]);
        }
        let opens = has_prefix(line.as_slice(), open_mark.as_slice());
        if summary.len() == 0 && !opens {
            i += 1;
            continue;
        }
        proof {
            if summary@.len() == 0 {
                lemma_first_opening_is(all, outgoing(), i as int);
            }
        }
        let ghost k = first_opening(all, outgoing());
        let ghost before = summary.deep_view();
        let n = line.len();
        let kept = text_of(line.as_slice(), 0, n);
        summary.push(kept);
        let ends = has_prefix(line.as_slice(), close_mark.as_slice());
        proof {
            assert(kept@ =~= line@);
            assert(summary.deep_view() =~= before.push(line@));
            assert(all.subrange(k, i + 1) =~= all.subrange(k, i as int).push(all[i as int]));
            if ends {
                let rest = all.skip(k);
                assert forall|j: int| 0 <= j < rest.len() && j < i - k implies !starts_with(#[trigger] rest[j], total_diff()) by {
                    assert(rest[j] == all[k + j]);
                }
                assert(rest[i - k] == all[i as int]);
                lemma_first_opening_is(rest, total_diff(), i - k);
            }
        }
        if ends {
            closed = true;
        }
        i += 1;
    }
    proof {
        let k = first_opening(all, outgoing());
        if summary@.len() == 0 && !closed {
            lemma_first_opening_is(all, outgoing(), -1);
            assert(summary.deep_view() =~= Seq::<Seq<char>>::empty());
        } else if closed {
            assert(all.skip(k).take(i - k) =~= all.subrange(k, i as int));
        } else {
            let rest = all.skip(k);
            assert forall|j: int| 0 <= j < rest.len() implies !starts_with(#[trigger] rest[j], total_diff()) by {
                assert(rest[j] == all[k + j]);
            }
            lemma_first_opening_is(rest, total_diff(), -1);
            assert(all.subrange(k, ls@.len() as int) =~= rest);
        }
        assert(lines(text@).map_values(|l: Seq<char>| standing(trim_end(l, '\r'))) == all);
    }
    summary
}

/// What the rebuild moved between the two generations, in nh's own words,
/// its styling gone: a note is read back out of git, where an escape is
/// nothing but noise.
pub fn summarise_rebuild(output: &str) -> (r: Vec<String>)
    ensures
        r.deep_view() == rebuild_summary_of(without_escapes(output@)),
{
    let text = strip_escapes(output);
    summarise_rebuild_plain(text.as_str())
}

// ---------------------------------------------------------------------------
// What is committed and noted
// ---------------------------------------------------------------------------

/// The one file an update has any business writing.
pub open spec fn flake_lock() -> Seq<char> {
    "flake.lock"@
}

/// The message the updated lock file is committed with: a subject, a blank
/// line, and what nix said it changed.
pub open spec fn commit_text(summary: Seq<Seq<char>>) -> Seq<char> {
    join(seq!["build(flake.lock): update"@, seq![]] + summary, seq!['\n'])
}

/// The notes ref the rebuilds of `system` are recorded under: the host is both
/// what tells the notes apart and what a note names as the scope of what it
/// changed.
pub open spec fn notes_ref_of(system: Seq<char>) -> Seq<char> {
    "refs/notes/rebuild/"@ + system
}

/// What is written to the notes ref for a rebuild `system` carried out at
/// `now`, `summary` being what it moved.
pub open spec fn note_text(system: Seq<char>, summary: Seq<Seq<char>>, now: Seq<char>) -> Seq<char> {
    join(
        seq!["build("@ + system + "): apply flake.lock update"@, seq![]] + summary + seq![seq![], "Rebuilt-at: "@ + now],
        seq!['\n'],
    )
}

/// The message the updated lock file is committed with.
pub fn commit_message(summary: &[String]) -> (r: String)
    ensures
        r@ == commit_text(summary.deep_view()),
{
    let mut parts: Vec<String> = Vec::new();
    parts.push("build(flake.lock): update".to_owned());
    parts.push(String::new());
    let mut i: usize = 0;
    while i < summary.len()
        invariant
            0 <= i <= summary@.len(),
            parts.deep_view() == seq!["build(flake.lock): update"@, seq![]] + summary.deep_view().take(i as int),
        decreases summary.len() - i,
    {
        let ghost before = parts.deep_view();
        parts.push(summary[i].clone());
        proof {
            assert(parts.deep_view() =~= before.push(summary.deep_view()[i as int]));
            assert(summary.deep_view().take(i + 1) =~= summary.deep_view().take(i as int).push(summary.deep_view()[i as int]));
        }
        i += 1;
    }
    proof {
        assert(summary.deep_view().take(summary@.len() as int) =~= summary.deep_view());
    }
    let sep = "\n";
    proof {
        reveal_strlit("\n");
        assert(sep@ =~= seq!['\n']);
    }
    let ps = parts.as_slice();
    proof {
        assert(ps.deep_view() =~= parts.deep_view());
    }
    join_lines(ps, sep)
}

/// The notes ref the rebuilds of `system` are recorded under.
pub fn notes_ref(system: &str) -> (r: String)
    ensures
        r@ == notes_ref_of(system@),
{
    let mut r = "refs/notes/rebuild/".to_owned();
    r.append(system);
    r
}

/// What is written to the notes ref for a rebuild `system` carried out at
/// `now`, `summary` being what it moved.
pub fn note_at(system: &str, summary: &[String], now: &str) -> (r: String)
    ensures
        r@ == note_text(system@, summary.deep_view(), now@),
{
    let mut subject = "build(".to_owned();
    subject.append(system);
    subject.append("): apply flake.lock update");
    let mut stamp = "Rebuilt-at: ".to_owned();
    stamp.append(now);
    let ghost head = seq!["build("@ + system@ + "): apply flake.lock update"@, Seq::<char>::empty()];
    let mut parts: Vec<String> = Vec::new();
    parts.push(subject);
    parts.push(String::new());
    proof {
        assert(parts.deep_view() =~= head);
    }
    let mut i: usize = 0;
    while i < summary.len()
        invariant
            0 <= i <= summary@.len(),
            stamp@ == "Rebuilt-at: "@ + now@,
            parts.deep_view() == head + summary.deep_view().take(i as int),
        decreases summary.len() - i,
    {
        let ghost before = parts.deep_view();
        parts.push(summary[i].clone());
        proof {
            assert(parts.deep_view() =~= before.push(summary.deep_view()[i as int]));
            assert(summary.deep_view().take(i + 1) =~= summary.deep_view().take(i as int).push(summary.deep_view()[i as int]));
        }
        i += 1;
    }
    let ghost before = parts.deep_view();
    parts.push(String::new());
    parts.push(stamp);
    proof {
        assert(summary.deep_view().take(summary@.len() as int) =~= summary.deep_view());
        assert(parts.deep_view() =~= head + summary.deep_view() + seq![Seq::<char>::empty(), "Rebuilt-at: "@ + now@]);
    }
    let sep = "\n";
    proof {
        reveal_strlit("\n");
        assert(sep@ =~= seq!['\n']);
    }
    let ps = parts.as_slice();
    proof {
        assert(ps.deep_view() =~= parts.deep_view());
    }
    join_lines(ps, sep)
}

pub open spec fn is_digit(c: char) -> bool {
    '0' <= c <= '9'
}

/// A time in RFC 3339 to the whole second, with the offset spelled out as
/// `+hh:mm` or `-hh:mm` and never as `Z`: a year of digits (signed where it
/// lies outside 0 to 9999), then `-MM-DDThh:mm:ss` and the offset.
pub open spec fn rfc3339_to_the_second(s: Seq<char>) -> bool {
    let n = s.len() as int;
    &&& n >= 25
    &&& forall|i: int| 0 <= i < n - 21 ==> is_digit(#[trigger] s[i]) || (i == 0 && (s[0] == '+' || s[0] == '-'))
    &&& s[n - 21] == '-' && is_digit(s[n - 20]) && is_digit(s[n - 19])
    &&& s[n - 18] == '-' && is_digit(s[n - 17]) && is_digit(s[n - 16])
    &&& s[n - 15] == 'T' && is_digit(s[n - 14]) && is_digit(s[n - 13])
    &&& s[n - 12] == ':' && is_digit(s[n - 11]) && is_digit(s[n - 10])
    &&& s[n - 9] == ':' && is_digit(s[n - 8]) && is_digit(s[n - 7])
    &&& (s[n - 6] == '+' || s[n - 6] == '-') && is_digit(s[n - 5]) && is_digit(s[n - 4])
    &&& s[n - 3] == ':' && is_digit(s[n - 2]) && is_digit(s[n - 1])
}

/// Reads the clock with `chrono::Local::now` and spells it out with
/// `to_rfc3339_opts(SecondsFormat::Secs, false)`. Claimed: the shape chrono's
/// `write_rfc3339` gives every time (a four-digit year, or a signed one out of
/// range, whole seconds, an offset to the minute with a colon and no `Z`);
/// which time it is, is the clock's.
#[verifier::external_body]
fn rebuild_time() -> (r: String)
    ensures
        rfc3339_to_the_second(r@),
{
    chrono::Local::now().to_rfc3339_opts(chrono::SecondsFormat::Secs, false)
}

/// What gets written to the notes ref for a rebuild `system` has just carried
/// out, stamped with the time it is written, as the clock of whoever ran the
/// rebuild read it.
pub fn note(system: &str, summary: &[String]) -> (r: String)
    ensures
        exists|now: Seq<char>| rfc3339_to_the_second(now) && r@ == note_text(system@, summary.deep_view(), now),
{
    let now = rebuild_time();
    note_at(system, summary, now.as_str())
}

// ---------------------------------------------------------------------------
// The programs an update runs
// ---------------------------------------------------------------------------

/// The arguments that `nix` is given to update the inputs of `flake`.
pub fn update_arguments(flake: &str) -> (r: Vec<String>)
    ensures
        r.deep_view() == seq!["flake"@, "update"@, "--flake"@, flake@],
{
    let mut r: Vec<String> = Vec::new();
    r.push("flake".to_owned());
    r.push("update".to_owned());
    r.push("--flake".to_owned());
    r.push(flake.to_owned());
    proof {
        assert(r.deep_view() =~= seq!["flake"@, "update"@, "--flake"@, flake@]);
    }
    r
}

/// The arguments that `nh` is given to build `flake` and switch to it, asking
/// first.
pub fn switch_arguments(flake: &str) -> (r: Vec<String>)
    ensures
        r.deep_view() == seq!["os"@, "switch"@, "--ask"@, flake@],
{
    let mut r: Vec<String> = Vec::new();
    r.push("os".to_owned());
    r.push("switch".to_owned());
    r.push("--ask".to_owned());
    r.push(flake.to_owned());
    proof {
        assert(r.deep_view() =~= seq!["os"@, "switch"@, "--ask"@, flake@]);
    }
    r
}

} // verus!
