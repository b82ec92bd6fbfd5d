//! Whether a commit keeps to one host: changes under `hosts/<name>/` belong to
//! that host alone, everything outside `hosts/` is shared, and a commit may
//! touch this host, or what is shared, but neither another host nor both.

use vstd::prelude::*;
use termtree::Tree;

use crate::listing::{
    attach, deeper, glyphs_of, lemma_plain_below_grows, leaves_of, node, outline, palettes, plain, plain_below,
    under, with_leaves,
};
use crate::render::{
    dimmed_glyphs, dir, disallowed, file_path, headline, note, paint, painted, root_label, rooted, styled_path,
    Look, GREEN, RED, YELLOW,
};
use crate::text::{after, chars_of, first_index, has_prefix, split_once, starts_with, text_of};

verus! {

// ---------------------------------------------------------------------------
// The model
// ---------------------------------------------------------------------------

/// `hosts`, the directory every host keeps its own files under.
pub open spec fn hosts() -> Seq<char> {
    seq!['h', 'o', 's', 't', 's']
}

/// `hosts/`.
pub open spec fn hosts_dir() -> Seq<char> {
    hosts() + seq!['/']
}

/// What follows `dir/` in `path`, where `path` lies under `dir`.
pub open spec fn below(path: Seq<char>, dir: Seq<char>) -> Option<Seq<char>> {
    after(path, dir + seq!['/'])
}

/// The heading a path under `hosts/` is listed under: `hosts/<name>` for a
/// file of the host `name`, and `hosts/` for one directly under `hosts/`.
pub open spec fn host_heading(path: Seq<char>) -> Seq<char> {
    match below(path, hosts()) {
        Some(rest) => match split_once(rest, '/') {
            Some((name, _)) => hosts_dir() + name,
            None => hosts_dir(),
        },
        None => hosts_dir(),
    }
}

/// `other host`.
pub open spec fn other_host_note() -> Seq<char> {
    seq!['o', 't', 'h', 'e', 'r', ' ', 'h', 'o', 's', 't']
}

/// `not a host`.
pub open spec fn not_a_host_note() -> Seq<char> {
    seq!['n', 'o', 't', ' ', 'a', ' ', 'h', 'o', 's', 't']
}

/// What the heading of a path says of it: that it names another host, or,
/// for a file directly under `hosts/`, that it is no host at all.
pub open spec fn host_note(path: Seq<char>) -> Seq<char> {
    match below(path, hosts()) {
        Some(rest) => match split_once(rest, '/') {
            Some(_) => other_host_note(),
            None => not_a_host_note(),
        },
        None => not_a_host_note(),
    }
}

/// The paths listed under `heading`, in the order given.
pub open spec fn members(paths: Seq<Seq<char>>, heading: Seq<char>) -> Seq<Seq<char>>
    decreases paths.len(),
{
    if paths.len() == 0 {
        seq![]
    } else if host_heading(paths.last()) == heading {
        members(paths.drop_last(), heading).push(paths.last())
    } else {
        members(paths.drop_last(), heading)
    }
}

/// Each value once, where it first occurs.
pub open spec fn distinct<A>(s: Seq<A>) -> Seq<A>
    decreases s.len(),
{
    if s.len() == 0 {
        seq![]
    } else {
        let d = distinct(s.drop_last());
        if d.contains(s.last()) {
            d
        } else {
            d.push(s.last())
        }
    }
}

/// The headings of the paths, in order.
pub open spec fn headings(paths: Seq<Seq<char>>) -> Seq<Seq<char>> {
    paths.map_values(|p: Seq<char>| host_heading(p))
}

/// One group per heading, in the order the headings first come up: the
/// heading, what the first path under it says of it, and the paths under it.
pub open spec fn host_groups(paths: Seq<Seq<char>>) -> Seq<(Seq<char>, Seq<char>, Seq<Seq<char>>)> {
    distinct(headings(paths)).map_values(
        |h: Seq<char>| (h, host_note(members(paths, h)[0]), members(paths, h)),
    )
}

/// The groups as plain values.
pub open spec fn groups_view<'a>(groups: Seq<(String, &'static str, Vec<&'a str>)>) -> Seq<
    (Seq<char>, Seq<char>, Seq<Seq<char>>),
> {
    groups.map_values(
        |g: (String, &'static str, Vec<&'a str>)| (g.0@, g.1@, g.2@.map_values(|p: &str| p@)),
    )
}

/// `path` with the part its group heading already spells out trimmed off,
/// falling back to `hosts/` for a file sitting directly under it.
pub open spec fn relative(label: Seq<char>, path: Seq<char>) -> Seq<char> {
    match below(path, label) {
        Some(rest) => rest,
        None => match below(path, hosts()) {
            Some(rest) => rest,
            None => path,
        },
    }
}

/// A heading, all of it bold, where only the host name carries the colour.
pub open spec fn heading_text(look: Look, label: Seq<char>) -> Seq<char> {
    match below(label, hosts()) {
        Some(host) => if host.len() > 0 {
            painted(dir(), hosts_dir()) + painted(look.bolded(), host)
        } else {
            painted(look.bolded(), label)
        },
        None => painted(look.bolded(), label),
    }
}

/// The lines of one group: its heading and note, then a line per path,
/// relative to what the heading names.
pub open spec fn group_lines(
    label: Seq<char>,
    note_text: Seq<char>,
    heading_look: Look,
    file_look: Look,
    paths: Seq<Seq<char>>,
) -> Seq<(nat, Seq<char>)> {
    seq![(0nat, heading_text(heading_look, label) + seq![' '] + painted(note(), seq!['('] + note_text + seq![')']))]
        + paths.map_values(|p: Seq<char>| (1nat, styled_path(file_look, relative(label, p))))
}

/// Where a changed path belongs.
#[derive(Clone, Copy, Debug, PartialEq, Eq)]
pub enum Side {
    ThisHost,
    OtherHost,
    Shared,
}

/// `hosts/<system>`, the directory of the host this runs on.
pub open spec fn system_dir(system: Seq<char>) -> Seq<char> {
    hosts_dir() + system
}

/// Where `path` belongs, seen from the host `system`.
pub open spec fn side_of(path: Seq<char>, system: Seq<char>) -> Side {
    if starts_with(path, system_dir(system) + seq!['/']) {
        Side::ThisHost
    } else if starts_with(path, hosts_dir()) {
        Side::OtherHost
    } else {
        Side::Shared
    }
}

/// The paths on `side`, in the order given.
pub open spec fn on_side(paths: Seq<Seq<char>>, system: Seq<char>, side: Side) -> Seq<Seq<char>>
    decreases paths.len(),
{
    if paths.len() == 0 {
        seq![]
    } else if side_of(paths.last(), system) == side {
        on_side(paths.drop_last(), system, side).push(paths.last())
    } else {
        on_side(paths.drop_last(), system, side)
    }
}

/// `this commit touches a host other than `<system>``, the host name quoted as
/// well as coloured.
pub open spec fn foreign_headline(system: Seq<char>) -> Seq<char> {
    painted(headline(), "this commit touches a host other than"@) + seq![' ']
        + painted(Look::on_default(GREEN).bolded(), seq!['`'] + system + seq!['`'])
}

/// `this commit mixes host-specific and shared changes`.
pub open spec fn mixed_headline() -> Seq<char> {
    painted(headline(), "this commit mixes host-specific and shared changes"@)
}

/// The lines of the groups of foreign paths, one level below the root.
pub open spec fn foreign_lines(groups: Seq<(Seq<char>, Seq<char>, Seq<Seq<char>>)>) -> Seq<(nat, Seq<char>)>
    decreases groups.len(),
{
    if groups.len() == 0 {
        seq![]
    } else {
        let g = groups.last();
        foreign_lines(groups.drop_last()) + deeper(group_lines(g.0, g.1, Look::on_default(RED), disallowed(), g.2))
    }
}

/// The listing a refused commit is shown with: the work tree, then the foreign
/// hosts first, since they are what makes the commit an error at all, then
/// this host, then what is shared, each group present only where it has paths.
pub open spec fn boundary_lines(system: Seq<char>, workdir: Seq<char>, changed: Seq<Seq<char>>) -> Seq<(nat, Seq<char>)> {
    let this_host = on_side(changed, system, Side::ThisHost);
    let shared = on_side(changed, system, Side::Shared);
    seq![(0nat, painted(dir(), root_label(workdir)))]
        + foreign_lines(host_groups(on_side(changed, system, Side::OtherHost)))
        + (if this_host.len() > 0 {
            deeper(group_lines(system_dir(system), "this host"@, Look::on_default(GREEN), Look::plain(), this_host))
        } else {
            seq![]
        })
        + (if shared.len() > 0 {
            deeper(group_lines(":!hosts"@, "shared"@, Look::on_default(YELLOW), Look::plain(), shared))
        } else {
            seq![]
        })
}

/// The headline a commit is refused with, if it is refused: a foreign host
/// makes it an error whatever else it touches, and this host together with
/// what is shared makes it one too.
pub open spec fn boundary_headline(system: Seq<char>, changed: Seq<Seq<char>>) -> Option<Seq<char>> {
    if on_side(changed, system, Side::OtherHost).len() > 0 {
        Some(foreign_headline(system))
    } else if on_side(changed, system, Side::ThisHost).len() > 0 && on_side(changed, system, Side::Shared).len() > 0 {
        Some(mixed_headline())
    } else {
        None
    }
}

// ---------------------------------------------------------------------------
// Facts about the model
// ---------------------------------------------------------------------------

pub proof fn lemma_distinct_contains<A>(s: Seq<A>, x: A)
    ensures
        distinct(s).contains(x) <==> s.contains(x),
    decreases s.len(),
{
    if s.len() > 0 {
        let t = s.drop_last();
        let y = s.last();
        let d = distinct(t);
        lemma_distinct_contains(t, x);
        lemma_push_contains(t, y, x);
        assert(s == t.push(y));
        lemma_push_contains(d, y, x);
        if d.contains(y) && y == x {
            assert(d.contains(x));
        }
    }
}

pub proof fn lemma_push_contains<A>(s: Seq<A>, y: A, x: A)
    ensures
        s.push(y).contains(x) <==> (s.contains(x) || y == x),
{
    if s.contains(x) {
        let i = choose|i: int| 0 <= i < s.len() && s[i] == x;
        assert(s.push(y)[i] == x);
    }
    if y == x {
        assert(s.push(y)[s.len() as int] == x);
    }
    if s.push(y).contains(x) && y != x {
        let i = choose|i: int| 0 <= i < s.push(y).len() && s.push(y)[i] == x;
        assert(s[i] == x);
    }
}

pub proof fn lemma_distinct_unique<A>(s: Seq<A>)
    ensures
        forall|i: int, j: int| 0 <= i < j < distinct(s).len() ==> distinct(s)[i] != distinct(s)[j],
    decreases s.len(),
{
    if s.len() > 0 {
        lemma_distinct_unique(s.drop_last());
        let d = distinct(s.drop_last());
        if !d.contains(s.last()) {
            assert forall|i: int, j: int| 0 <= i < j < distinct(s).len() implies distinct(s)[i] != distinct(s)[j] by {
                if j == d.len() {
                    if distinct(s)[i] == distinct(s)[j] {
                        assert(d[i] == s.last());
                        assert(d.contains(s.last()));
                    }
                } else {
                    assert(distinct(s)[i] == d[i] && distinct(s)[j] == d[j]);
                }
            }
        }
    }
}

pub proof fn lemma_members_nonempty(paths: Seq<Seq<char>>, h: Seq<char>)
    ensures
        members(paths, h).len() > 0 <==> headings(paths).contains(h),
    decreases paths.len(),
{
    if paths.len() > 0 {
        let rest = paths.drop_last();
        lemma_members_nonempty(rest, h);
        assert(headings(rest) =~= headings(paths).drop_last());
        if headings(rest).contains(h) {
            let i = choose|i: int| 0 <= i < headings(rest).len() && headings(rest)[i] == h;
            assert(headings(paths)[i] == h);
        }
        if headings(paths).contains(h) && !headings(rest).contains(h) {
            let i = choose|i: int| 0 <= i < headings(paths).len() && headings(paths)[i] == h;
            if i < paths.len() - 1 {
                assert(headings(rest)[i] == h);
            }
            assert(host_heading(paths.last()) == h);
        }
        if host_heading(paths.last()) == h {
            assert(headings(paths)[paths.len() - 1] == h);
        }
    }
}

/// Every changed path lands on exactly one side, and the three sides between
/// them hold every path: none is dropped and none listed twice.
pub proof fn lemma_sides_partition(changed: Seq<Seq<char>>, system: Seq<char>)
    ensures
        on_side(changed, system, Side::ThisHost).len() + on_side(changed, system, Side::OtherHost).len()
            + on_side(changed, system, Side::Shared).len() == changed.len(),
        forall|i: int| 0 <= i < on_side(changed, system, Side::ThisHost).len()
            ==> side_of(#[trigger] on_side(changed, system, Side::ThisHost)[i], system) == Side::ThisHost,
        forall|i: int| 0 <= i < on_side(changed, system, Side::OtherHost).len()
            ==> side_of(#[trigger] on_side(changed, system, Side::OtherHost)[i], system) == Side::OtherHost,
        forall|i: int| 0 <= i < on_side(changed, system, Side::Shared).len()
            ==> side_of(#[trigger] on_side(changed, system, Side::Shared)[i], system) == Side::Shared,
    decreases changed.len(),
{
    if changed.len() > 0 {
        lemma_sides_partition(changed.drop_last(), system);
    }
}

pub proof fn lemma_member_listed(paths: Seq<Seq<char>>, k: int)
    requires
        0 <= k < paths.len(),
    ensures
        members(paths, host_heading(paths[k])).contains(paths[k]),
    decreases paths.len(),
{
    let h = host_heading(paths[k]);
    if k == paths.len() - 1 {
        assert(members(paths, h) == members(paths.drop_last(), h).push(paths[k]));
        assert(members(paths, h)[members(paths, h).len() - 1] == paths[k]);
    } else {
        assert(paths.drop_last()[k] == paths[k]);
        lemma_member_listed(paths.drop_last(), k);
        let m = members(paths.drop_last(), h);
        let i = choose|i: int| 0 <= i < m.len() && m[i] == paths[k];
        if host_heading(paths.last()) == h {
            assert(members(paths, h) == m.push(paths.last()));
            assert(members(paths, h)[i] == paths[k]);
        }
    }
}

pub proof fn lemma_members_share_heading(paths: Seq<Seq<char>>, h: Seq<char>)
    ensures
        forall|i: int| 0 <= i < members(paths, h).len() ==> host_heading(#[trigger] members(paths, h)[i]) == h,
    decreases paths.len(),
{
    if paths.len() > 0 {
        let m = members(paths.drop_last(), h);
        lemma_members_share_heading(paths.drop_last(), h);
        if host_heading(paths.last()) == h {
            assert forall|i: int| 0 <= i < members(paths, h).len() implies host_heading(
                #[trigger] members(paths, h)[i],
            ) == h by {
                assert(members(paths, h) == m.push(paths.last()));
                if i < m.len() {
                    assert(members(paths, h)[i] == m[i]);
                }
            }
        }
    }
}

/// Listing foreign paths by host loses none and doubles none: the headings
/// are all different, every path is listed under the heading of its own host,
/// and a group holds nothing but paths of its heading.
pub proof fn lemma_groups_partition(paths: Seq<Seq<char>>)
    ensures
        forall|i: int, j: int| 0 <= i < j < host_groups(paths).len() ==> host_groups(paths)[i].0 != host_groups(paths)[j].0,
        forall|k: int| 0 <= k < paths.len() ==> exists|g: int|
            0 <= g < host_groups(paths).len() && host_groups(paths)[g].0 == host_heading(#[trigger] paths[k])
                && (#[trigger] host_groups(paths)[g]).2.contains(paths[k]),
        forall|g: int, m: int| 0 <= g < host_groups(paths).len() && 0 <= m < host_groups(paths)[g].2.len()
            ==> host_heading(#[trigger] host_groups(paths)[g].2[m]) == host_groups(paths)[g].0,
{
    let hg = host_groups(paths);
    let d = distinct(headings(paths));
    lemma_distinct_unique(headings(paths));
    assert forall|k: int| 0 <= k < paths.len() implies exists|g: int|
        0 <= g < hg.len() && hg[g].0 == host_heading(#[trigger] paths[k]) && (#[trigger] hg[g]).2.contains(paths[k]) by {
        let h = host_heading(paths[k]);
        assert(headings(paths)[k] == h);
        lemma_distinct_contains(headings(paths), h);
        let g = choose|g: int| 0 <= g < d.len() && d[g] == h;
        lemma_member_listed(paths, k);
        assert(hg[g].0 == h);
    }
    assert forall|g: int, m: int| 0 <= g < hg.len() && 0 <= m < hg[g].2.len() implies host_heading(
        #[trigger] hg[g].2[m],
    ) == hg[g].0 by {
        lemma_members_share_heading(paths, d[g]);
    }
}

/// The groups once one more path comes in: the path goes onto the end of the
/// group under its heading, where there is one, and otherwise opens a group
/// of its own after all the others.
pub open spec fn grown(groups: Seq<(Seq<char>, Seq<char>, Seq<Seq<char>>)>, p: Seq<char>) -> Seq<
    (Seq<char>, Seq<char>, Seq<Seq<char>>),
> {
    let h = host_heading(p);
    if exists|g: int| 0 <= g < groups.len() && (#[trigger] groups[g]).0 == h {
        let g = choose|g: int| 0 <= g < groups.len() && (#[trigger] groups[g]).0 == h;
        groups.update(g, (h, groups[g].1, groups[g].2.push(p)))
    } else {
        groups.push((h, host_note(p), seq![p]))
    }
}

/// How the grouping grows by one path.
pub proof fn lemma_groups_grow(paths: Seq<Seq<char>>, p: Seq<char>)
    ensures
        host_groups(paths.push(p)) == grown(host_groups(paths), p),
{
    let now = paths.push(p);
    let h = host_heading(p);
    let d = distinct(headings(paths));
    let before = host_groups(paths);
    let hv = host_groups(now);
    assert(now.drop_last() =~= paths);
    assert(headings(now) =~= headings(paths).push(h));
    assert(headings(now).drop_last() =~= headings(paths));
    lemma_distinct_unique(headings(paths));
    lemma_distinct_contains(headings(paths), h);
    lemma_members_nonempty(paths, h);
    assert(before.len() == d.len());
    if exists|g: int| 0 <= g < before.len() && (#[trigger] before[g]).0 == h {
        let g = choose|g: int| 0 <= g < before.len() && (#[trigger] before[g]).0 == h;
        assert(d[g] == h);
        assert(d.contains(h));
        assert(distinct(headings(now)) == d);
        let gv = before.update(g, (h, before[g].1, before[g].2.push(p)));
        assert(hv.len() == gv.len());
        assert forall|i: int| 0 <= i < gv.len() implies gv[i] == hv[i] by {
            assert(hv[i].0 == d[i]);
            if i == g {
                assert(members(now, h) == members(paths, h).push(p));
                assert(members(now, h)[0] == members(paths, h)[0]);
            } else {
                assert(d[i] != d[g]);
                assert(members(now, d[i]) == members(paths, d[i]));
            }
        }
        assert(hv =~= gv);
    } else {
        if d.contains(h) {
            let i = choose|i: int| 0 <= i < d.len() && d[i] == h;
            assert(before[i].0 == h);
        }
        assert(distinct(headings(now)) == d.push(h));
        assert(members(paths, h).len() == 0);
        assert(members(now, h) =~= seq![p]);
        let gv = before.push((h, host_note(p), seq![p]));
        assert(hv.len() == gv.len());
        assert forall|i: int| 0 <= i < gv.len() implies gv[i] == hv[i] by {
            if i < d.len() {
                assert(d[i] != h);
                assert(members(now, d[i]) == members(paths, d[i]));
            } else {
                assert(hv[i].0 == h);
                assert(members(now, h)[0] == p);
            }
        }
        assert(hv =~= gv);
    }
}

/// A path listed relative to a heading it lies under comes back whole once
/// the heading is put back in front of it.
pub proof fn lemma_relative_restores(label: Seq<char>, path: Seq<char>)
    requires
        below(path, label) is Some,
    ensures
        label + seq!['/'] + relative(label, path) == path,
{
    let n = (label + seq!['/']).len() as int;
    assert(path =~= path.take(n) + path.skip(n));
}

/// Every path listed under a heading is one of the paths given.
proof fn lemma_members_given(paths: Seq<Seq<char>>, h: Seq<char>)
    ensures
        forall|i: int| 0 <= i < members(paths, h).len() ==> paths.contains(#[trigger] members(paths, h)[i]),
    decreases paths.len(),
{
    if paths.len() > 0 {
        let m = members(paths.drop_last(), h);
        lemma_members_given(paths.drop_last(), h);
        assert forall|i: int| 0 <= i < members(paths, h).len() implies paths.contains(
            #[trigger] members(paths, h)[i],
        ) by {
            if host_heading(paths.last()) == h && i == m.len() {
                assert(members(paths, h)[i] == paths[paths.len() - 1]);
            } else {
                assert(members(paths, h)[i] == m[i]);
                let j = choose|j: int| 0 <= j < paths.drop_last().len() && paths.drop_last()[j] == m[i];
                assert(paths[j] == m[i]);
            }
        }
    }
}

/// A path under `hosts/`, not opening with `hosts//`, comes back whole from
/// what is listed of it under its own heading: put back behind `heading/`
/// for a host, and behind `hosts/` for a file directly under it.
proof fn lemma_listed_path_restores(p: Seq<char>)
    requires
        below(p, hosts()) is Some,
        !starts_with(p, hosts_dir() + seq!['/']),
    ensures
        host_heading(p) == hosts_dir() ==> hosts_dir() + relative(host_heading(p), p) == p,
        host_heading(p) != hosts_dir() ==> host_heading(p) + seq!['/'] + relative(host_heading(p), p) == p,
{
    let rest = p.skip(6);
    assert(p.take(6) =~= hosts_dir());
    assert(p =~= hosts_dir() + rest);
    crate::text::lemma_first_of_bounds(rest, '/');
    let k = crate::text::first_of(rest, '/');
    if k >= 0 {
        if k == 0 {
            assert(p.take(7) =~= hosts_dir() + seq!['/']);
        }
        let l = hosts_dir() + rest.take(k);
        assert(host_heading(p) == l);
        assert(l.len() != hosts_dir().len());
        assert(p.take(l.len() + 1 as int) =~= l + seq!['/']);
        lemma_relative_restores(l, p);
    } else {
        assert(host_heading(p) == hosts_dir());
        assert(below(p, hosts_dir()) is None);
    }
}

/// Where every path lies under `hosts/` and none opens with `hosts//`, each
/// path in a group comes back whole from the line it is listed as: behind the
/// group's heading and a `/` for a host, behind `hosts/` for the group of files
/// directly under it.
pub proof fn lemma_groups_list_relative(paths: Seq<Seq<char>>)
    requires
        forall|k: int| 0 <= k < paths.len() ==> below(#[trigger] paths[k], hosts()) is Some,
        forall|k: int| 0 <= k < paths.len() ==> !starts_with(#[trigger] paths[k], hosts_dir() + seq!['/']),
    ensures
        forall|g: int, m: int| 0 <= g < host_groups(paths).len() && 0 <= m < host_groups(paths)[g].2.len()
            ==> if host_groups(paths)[g].0 == hosts_dir() {
                hosts_dir() + relative(host_groups(paths)[g].0, #[trigger] host_groups(paths)[g].2[m]) == host_groups(paths)[g].2[m]
            } else {
                host_groups(paths)[g].0 + seq!['/'] + relative(host_groups(paths)[g].0, host_groups(paths)[g].2[m])
                    == host_groups(paths)[g].2[m]
            },
{
    let hg = host_groups(paths);
    lemma_groups_partition(paths);
    assert forall|g: int, m: int| 0 <= g < hg.len() && 0 <= m < hg[g].2.len() implies if hg[g].0 == hosts_dir() {
        hosts_dir() + relative(hg[g].0, #[trigger] hg[g].2[m]) == hg[g].2[m]
    } else {
        hg[g].0 + seq!['/'] + relative(hg[g].0, hg[g].2[m]) == hg[g].2[m]
    } by {
        let d = distinct(headings(paths));
        let p = hg[g].2[m];
        lemma_members_given(paths, d[g]);
        assert(paths.contains(p));
        let k = choose|k: int| 0 <= k < paths.len() && paths[k] == p;
        assert(below(paths[k], hosts()) is Some);
        assert(!starts_with(paths[k], hosts_dir() + seq!['/']));
        assert(host_heading(p) == hg[g].0);
        lemma_listed_path_restores(p);
    }
}

/// A path is this host's exactly when it lies under `hosts/<system>/`, the
/// slash included, so that a host whose name merely begins with `system` is
/// another host; it is another host's when it lies under `hosts/` otherwise,
/// and shared when it lies outside `hosts/`.
pub proof fn lemma_side_of_path(path: Seq<char>, system: Seq<char>)
    ensures
        side_of(path, system) == Side::ThisHost <==> starts_with(path, hosts_dir() + system + seq!['/']),
        side_of(path, system) == Side::OtherHost <==> starts_with(path, hosts_dir())
            && !starts_with(path, hosts_dir() + system + seq!['/']),
        side_of(path, system) == Side::Shared <==> !starts_with(path, hosts_dir()),
{
    if starts_with(path, hosts_dir() + system + seq!['/']) {
        assert(path.take(hosts_dir().len() as int) =~= (hosts_dir() + system + seq!['/']).take(
            hosts_dir().len() as int,
        ));
        assert((hosts_dir() + system + seq!['/']).take(hosts_dir().len() as int) =~= hosts_dir());
    }
}

/// Each side holds exactly the changed paths that belong to it, in the order
/// they were given: this host's are those under `hosts/<system>/`, other
/// hosts' those under `hosts/` but not `hosts/<system>/`, and the shared ones
/// those outside `hosts/`.
pub proof fn lemma_sides_are_the_paths_belonging_to_them(changed: Seq<Seq<char>>, system: Seq<char>)
    ensures
        on_side(changed, system, Side::ThisHost) == changed.filter(
            |p: Seq<char>| starts_with(p, hosts_dir() + system + seq!['/']),
        ),
        on_side(changed, system, Side::OtherHost) == changed.filter(
            |p: Seq<char>| starts_with(p, hosts_dir()) && !starts_with(p, hosts_dir() + system + seq!['/']),
        ),
        on_side(changed, system, Side::Shared) == changed.filter(|p: Seq<char>| !starts_with(p, hosts_dir())),
    decreases changed.len(),
{
    reveal(Seq::filter);
    if changed.len() > 0 {
        lemma_sides_are_the_paths_belonging_to_them(changed.drop_last(), system);
        lemma_side_of_path(changed.last(), system);
    }
}

/// Some changed path lies on `side` exactly when that side holds anything.
proof fn lemma_on_side_nonempty(changed: Seq<Seq<char>>, system: Seq<char>, side: Side)
    ensures
        on_side(changed, system, side).len() > 0 <==> exists|k: int|
            0 <= k < changed.len() && side_of(#[trigger] changed[k], system) == side,
    decreases changed.len(),
{
    if changed.len() > 0 {
        let rest = changed.drop_last();
        lemma_on_side_nonempty(rest, system, side);
        if exists|k: int| 0 <= k < changed.len() && side_of(#[trigger] changed[k], system) == side {
            let k = choose|k: int| 0 <= k < changed.len() && side_of(#[trigger] changed[k], system) == side;
            if k < rest.len() {
                assert(rest[k] == changed[k]);
            }
        }
        if exists|k: int| 0 <= k < rest.len() && side_of(#[trigger] rest[k], system) == side {
            let k = choose|k: int| 0 <= k < rest.len() && side_of(#[trigger] rest[k], system) == side;
            assert(changed[k] == rest[k]);
        }
    }
}

/// The verdict on a commit, from the paths it changes: any path under
/// `hosts/` but outside `hosts/<system>/` gets it refused as touching another
/// host, whatever else it touches; failing that, a path of this host's
/// together with a path outside `hosts/` gets it refused as mixed; and
/// otherwise it passes.
pub proof fn lemma_verdict(system: Seq<char>, changed: Seq<Seq<char>>)
    ensures
        boundary_headline(system, changed) == if exists|k: int|
            0 <= k < changed.len() && starts_with(#[trigger] changed[k], hosts_dir())
                && !starts_with(changed[k], hosts_dir() + system + seq!['/']) {
            Some(foreign_headline(system))
        } else if (exists|k: int| 0 <= k < changed.len() && starts_with(#[trigger] changed[k], hosts_dir() + system + seq!['/']))
            && (exists|k: int| 0 <= k < changed.len() && !starts_with(#[trigger] changed[k], hosts_dir())) {
            Some(mixed_headline())
        } else {
            None
        },
{
    lemma_on_side_nonempty(changed, system, Side::ThisHost);
    lemma_on_side_nonempty(changed, system, Side::OtherHost);
    lemma_on_side_nonempty(changed, system, Side::Shared);
    assert forall|k: int| 0 <= k < changed.len() implies {
        &&& (side_of(#[trigger] changed[k], system) == Side::ThisHost <==> starts_with(changed[k], hosts_dir() + system + seq!['/']))
        &&& (side_of(changed[k], system) == Side::OtherHost <==> starts_with(changed[k], hosts_dir())
            && !starts_with(changed[k], hosts_dir() + system + seq!['/']))
        &&& (side_of(changed[k], system) == Side::Shared <==> !starts_with(changed[k], hosts_dir()))
    } by {
        lemma_side_of_path(changed[k], system);
    }
}

// ---------------------------------------------------------------------------
// Computing it
// ---------------------------------------------------------------------------

fn hosts_chars() -> (r: Vec<char>)
    ensures
        r@ == hosts(),
{
    let s = "hosts";
    proof {
        reveal_strlit("hosts");
    }
    chars_of(s)
}

/// What follows `dir/` in `path`, if `path` lies under `dir`: the index it starts at.
fn below_at(path: &[char], dir: &[char]) -> (r: Option<usize>)
    ensures
        match r {
            Some(k) => below(path@, dir@) == Some(path@.skip(k as int)) && k <= path@.len(),
            None => below(path@, dir@) is None,
        },
{
    let mut prefix: Vec<char> = Vec::new();
    let mut i: usize = 0;
    while i < dir.len()
        invariant
            0 <= i <= dir@.len(),
            prefix@ == dir@.take(i as int),
        decreases dir.len() - i,
    {
        prefix.push(dir[i]);
        i += 1;
    }
    prefix.push('/');
    proof {
        assert(prefix@ =~= dir@ + seq!['/']);
    }
    if has_prefix(path, prefix.as_slice()) {
        Some(prefix.len())
    } else {
        None
    }
}

/// The heading `path` is grouped under, and what that heading says of it.
fn heading_of(path: &str) -> (r: (String, &'static str))
    ensures
        r.0@ == host_heading(path@),
        r.1@ == host_note(path@),
{
    let hosts = hosts_chars();
    let cs = chars_of(path);
    let p = cs.as_slice();
    let n = p.len();
    let other = "other host";
    let none = "not a host";
    let dir = "hosts/";
    proof {
        reveal_strlit("other host");
        reveal_strlit("not a host");
        reveal_strlit("hosts/");
        assert(dir@ =~= hosts_dir());
        assert(other@ =~= other_host_note());
        assert(none@ =~= not_a_host_note());
    }
    match below_at(p, hosts.as_slice()) {
        Some(k) => {
            let rest = crate::text::part_of(p, k, n);
            proof {
                assert(rest@ =~= path@.skip(k as int));
            }
            match first_index(rest.as_slice(), '/') {
                Some(j) => {
                    proof {
                        crate::text::lemma_first_of_bounds(rest@, '/');
                    }
                    let name = text_of(rest.as_slice(), 0, j);
                    let mut heading = dir.to_owned();
                    heading.append(name.as_str());
                    proof {
                        assert(name@ == rest@.take(j as int));
                    }
                    (heading, other)
                },
                None => (dir.to_owned(), none),
            }
        },
        None => (dir.to_owned(), none),
    }
}

/// One group per foreign host, so each is listed under its own heading; a
/// file sitting directly under `hosts/` belongs to no host, so those share a
/// group. Groups come in the order their first path does, and each holds its
/// paths in the order given.
pub fn group_by_host<'a>(paths: &'a [String]) -> (r: Vec<(String, &'static str, Vec<&'a str>)>)
    ensures
        groups_view(r@) == host_groups(paths.deep_view()),
{
    let ghost all = paths.deep_view();
    let mut groups: Vec<(String, &'static str, Vec<&'a str>)> = Vec::new();
    let mut k: usize = 0;
    proof {
        assert(all.take(0) =~= Seq::<Seq<char>>::empty());
        assert(groups_view(groups@) =~= host_groups(all.take(0)));
    }
    while k < paths.len()
        invariant
            all == paths.deep_view(),
            0 <= k <= paths@.len(),
            groups_view(groups@) == host_groups(all.take(k as int)),
        decreases paths.len() - k,
    {
        let path: &'a str = paths[k].as_str();
        let (heading, note_text) = heading_of(path);
        let ghost done = all.take(k as int);
        let ghost now = all.take(k + 1);
        let ghost d = distinct(headings(done));
        proof {
            assert(now.drop_last() =~= done);
            assert(now.last() == path@);
            assert(headings(now) =~= headings(done).push(heading@));
            assert(headings(now).drop_last() =~= headings(done));
            lemma_distinct_unique(headings(done));
            lemma_distinct_contains(headings(done), heading@);
        }
        let mut j: usize = 0;
        let mut found = false;
        while j < groups.len()
            invariant
                0 <= j <= groups@.len(),
                groups_view(groups@) == host_groups(done),
                !found ==> forall|i: int| 0 <= i < j ==> groups@[i].0@ != heading@,
                found ==> j < groups@.len() && groups@[j as int].0@ == heading@,
            ensures
                groups_view(groups@) == host_groups(done),
                !found ==> forall|i: int| 0 <= i < groups@.len() ==> groups@[i].0@ != heading@,
                found ==> j < groups@.len() && groups@[j as int].0@ == heading@,
            decreases groups.len() - j + (if found { 0int } else { 1int }),
        {
            proof {
                assert(groups_view(groups@)[j as int].0 == groups@[j as int].0@);
            }
            if groups[j].0 == heading {
                found = true;
                break;
            }
            j += 1;
        }
        if found {
            proof {
                assert(groups_view(groups@).len() == groups@.len());
                assert(host_groups(done).len() == d.len());
                assert(groups_view(groups@)[j as int].0 == groups@[j as int].0@);
                assert(host_groups(done)[j as int].0 == d[j as int]);
                assert(d[j as int] == heading@);
                assert(d.contains(heading@));
                assert(distinct(headings(now)) == d);
                lemma_members_nonempty(done, heading@);
            }
            let ghost old_groups = groups@;
            let mut group = groups.remove(j);
            group.2.push(path);
            groups.insert(j, group);
            proof {
                let gv = groups_view(groups@);
                let hv = host_groups(now);
                let ov = groups_view(old_groups);
                assert(ov == host_groups(done));
                assert(groups@.len() == old_groups.len());
                assert(gv.len() == hv.len());
                assert forall|i: int| 0 <= i < gv.len() implies gv[i] == hv[i] by {
                    assert(hv[i].0 == d[i]);
                    assert(ov[i] == host_groups(done)[i]);
                    assert(ov[i].0 == d[i]);
                    if i == j {
                        assert(groups@[i].0 == old_groups[i].0);
                        assert(groups@[i].1 == old_groups[i].1);
                        assert(groups@[i].2@ == old_groups[i].2@.push(path));
                        assert(members(now, d[i]) == members(done, d[i]).push(path@));
                        assert(gv[i].2 =~= groups_view(old_groups)[i].2.push(path@));
                        assert(members(done, d[i]).len() > 0);
                        assert(members(now, d[i])[0] == members(done, d[i])[0]);
                    } else {
                        assert(groups@[i] == old_groups[i]);
                        assert(d[i] != d[j as int]);
                        assert(members(now, d[i]) == members(done, d[i]));
                    }
                }
                assert(gv =~= hv);
            }
        } else {
            proof {
                assert(groups_view(groups@).len() == groups@.len());
                assert(host_groups(done).len() == d.len());
                if d.contains(heading@) {
                    let i = choose|i: int| 0 <= i < d.len() && d[i] == heading@;
                    assert(groups_view(groups@)[i].0 == d[i]);
                    assert(groups@[i].0@ == heading@);
                }
                assert(!d.contains(heading@));
                assert(distinct(headings(now)) == d.push(heading@));
                lemma_members_nonempty(done, heading@);
                assert(members(done, heading@).len() == 0);
                assert(members(now, heading@) =~= seq![path@]);
            }
            let ghost old_groups = groups@;
            let mut members_here: Vec<&'a str> = Vec::new();
            members_here.push(path);
            groups.push((heading, note_text, members_here));
            proof {
                let gv = groups_view(groups@);
                let hv = host_groups(now);
                let d2 = d.push(heading@);
                let ov = groups_view(old_groups);
                assert(ov == host_groups(done));
                assert(hv.len() == d2.len());
                assert(ov.len() == old_groups.len());
                assert(host_groups(done).len() == d.len());
                assert(groups@.len() == old_groups.len() + 1);
                assert(gv.len() == hv.len());
                assert forall|i: int| 0 <= i < gv.len() implies gv[i] == hv[i] by {
                    assert(hv[i].0 == d2[i]);
                    if i == d.len() {
                        assert(groups@[i] == (heading, note_text, members_here));
                        assert(gv[i].2 =~= seq![path@]);
                        assert(members(now, heading@)[0] == path@);
                    } else {
                        assert(groups@[i] == old_groups[i]);
                        assert(ov[i] == host_groups(done)[i]);
                        assert(d[i] != heading@);
                        assert(members(now, d[i]) == members(done, d[i]));
                    }
                }
                assert(gv =~= hv);
            }
        }
        k += 1;
    }
    proof {
        assert(all.take(paths@.len() as int) =~= all);
    }
    groups
}

/// Trims the part of a path its group heading already spells out, falling
/// back to `hosts/` for a file sitting directly under it.
pub fn relative_to(label: &str, path: &str) -> (r: String)
    ensures
        r@ == relative(label@, path@),
{
    let l = chars_of(label);
    let cs = chars_of(path);
    let p = cs.as_slice();
    let n = p.len();
    match below_at(p, l.as_slice()) {
        Some(k) => {
            let r = text_of(p, k, n);
            proof {
                assert(r@ =~= path@.skip(k as int));
            }
            r
        },
        None => {
            let hosts = hosts_chars();
            match below_at(p, hosts.as_slice()) {
                Some(k) => {
                    let r = text_of(p, k, n);
                    proof {
                        assert(r@ =~= path@.skip(k as int));
                    }
                    r
                },
                None => path.to_owned(),
            }
        },
    }
}

/// A heading names a directory, so all of it is bold, but only the host name
/// carries the colour: `hosts/` says nothing about which host it is.
pub fn heading(look: Look, label: &str) -> (r: String)
    requires
        look.well_formed(),
    ensures
        r@ == heading_text(look, label@),
{
    let hosts = hosts_chars();
    let cs = chars_of(label);
    let p = cs.as_slice();
    let n = p.len();
    match below_at(p, hosts.as_slice()) {
        Some(k) => {
            if k < n {
                let host = text_of(p, k, n);
                let dir_text = "hosts/";
                proof {
                    reveal_strlit("hosts/");
                    assert(dir_text@ =~= hosts_dir());
                    assert(host@ =~= label@.skip(k as int));
                }
                let mut r = paint(dir(), dir_text);
                let tail = paint(look.bolded(), host.as_str());
                r.append(tail.as_str());
                r
            } else {
                proof {
                    assert(label@.skip(k as int).len() == 0);
                }
                paint(look.bolded(), label)
            }
        },
        None => paint(look.bolded(), label),
    }
}

/// A group of changed paths, listed relative to whatever the group already names.
pub fn group(label: &str, note_text: &str, heading_look: Look, file_look: Look, paths: &[&str]) -> (r: Tree<String>)
    requires
        heading_look.well_formed(),
        file_look.well_formed(),
    ensures
        outline(r) == group_lines(label@, note_text@, heading_look, file_look, paths@.map_values(|p: &str| p@)),
        palettes(r).len() >= 1,
        plain(palettes(r)),
{
    let mut root = heading(heading_look, label);
    let space = " ";
    let open = "(";
    let close = ")";
    proof {
        reveal_strlit(" ");
        reveal_strlit("(");
        reveal_strlit(")");
    }
    let mut aside = open.to_owned();
    aside.append(note_text);
    aside.append(close);
    let aside = paint(note(), aside.as_str());
    root.append(space);
    root.append(aside.as_str());
    let ghost pv = paths@.map_values(|p: &str| p@);
    let mut lines: Vec<String> = Vec::new();
    let mut i: usize = 0;
    while i < paths.len()
        invariant
            file_look.well_formed(),
            pv == paths@.map_values(|p: &str| p@),
            0 <= i <= paths@.len(),
            lines.deep_view() == pv.take(i as int).map_values(|p: Seq<char>| styled_path(file_look, relative(label@, p))),
        decreases paths.len() - i,
    {
        let rel = relative_to(label, paths[i]);
        let line = file_path(file_look, rel.as_str());
        let ghost before = lines.deep_view();
        lines.push(line);
        proof {
            assert(lines.deep_view() =~= before.push(line@));
            assert(pv.take(i + 1).map_values(|p: Seq<char>| styled_path(file_look, relative(label@, p)))
                =~= pv.take(i as int).map_values(|p: Seq<char>| styled_path(file_look, relative(label@, p))).push(
                styled_path(file_look, relative(label@, pv[i as int])),
            ));
        }
        i += 1;
    }
    proof {
        assert(pv.take(paths@.len() as int) =~= pv);
    }
    let leaves = leaves_of(&lines);
    let r = with_leaves(node(root), leaves);
    proof {
        assert(root@ == heading_text(heading_look, label@) + seq![' '] + painted(note(), seq!['('] + note_text@ + seq![')']));
        assert(lines.deep_view().map_values(|t: Seq<char>| (1nat, t)) =~= pv.map_values(
            |p: Seq<char>| (1nat, styled_path(file_look, relative(label@, p))),
        ));
        assert(outline(r) =~= group_lines(label@, note_text@, heading_look, file_look, pv));
        assert(palettes(r) =~= Seq::new((lines@.len() + 1) as nat, |j: int| None::<Seq<Seq<char>>>));
    }
    r
}

/// The paths, borrowed.
fn borrowed<'a>(paths: &'a Vec<String>) -> (r: Vec<&'a str>)
    ensures
        r@.map_values(|p: &str| p@) == paths.deep_view(),
{
    let mut r: Vec<&'a str> = Vec::new();
    let mut i: usize = 0;
    while i < paths.len()
        invariant
            0 <= i <= paths@.len(),
            r@.map_values(|p: &str| p@) == paths.deep_view().take(i as int),
        decreases paths.len() - i,
    {
        let ghost before = r@;
        let p = paths[i].as_str();
        r.push(p);
        proof {
            assert(r@ == before.push(p));
            assert(p@ == paths.deep_view()[i as int]);
            assert(r@.map_values(|p: &str| p@) =~= before.map_values(|p: &str| p@).push(p@));
            assert(paths.deep_view().take(i + 1) =~= paths.deep_view().take(i as int).push(paths.deep_view()[i as int]));
            assert(r@.map_values(|p: &str| p@) =~= paths.deep_view().take(i + 1));
        }
        i += 1;
    }
    proof {
        assert(paths.deep_view().take(paths@.len() as int) =~= paths.deep_view());
    }
    r
}

/// The changed paths sorted by where they belong, seen from the host `system`:
/// this host's, other hosts', and the shared ones, each in the order given.
pub fn sort_by_side(system: &str, changed: &[String]) -> (r: (Vec<String>, Vec<String>, Vec<String>))
    ensures
        r.0.deep_view() == on_side(changed.deep_view(), system@, Side::ThisHost),
        r.1.deep_view() == on_side(changed.deep_view(), system@, Side::OtherHost),
        r.2.deep_view() == on_side(changed.deep_view(), system@, Side::Shared),
{
    let mut own = "hosts/".to_owned();
    own.append(system);
    let slash = "/";
    own.append(slash);
    proof {
        reveal_strlit("hosts/");
        reveal_strlit("/");
        assert(own@ =~= system_dir(system@) + seq!['/']);
    }
    let own_prefix = chars_of(own.as_str());
    let hosts_prefix = chars_of("hosts/");
    proof {
        assert(hosts_prefix@ =~= hosts_dir());
    }
    let ghost all = changed.deep_view();
    let mut this_host: Vec<String> = Vec::new();
    let mut other_host: Vec<String> = Vec::new();
    let mut shared: Vec<String> = Vec::new();
    let mut k: usize = 0;
    while k < changed.len()
        invariant
            all == changed.deep_view(),
            own_prefix@ == system_dir(system@) + seq!['/'],
            hosts_prefix@ == hosts_dir(),
            0 <= k <= changed@.len(),
            this_host.deep_view() == on_side(all.take(k as int), system@, Side::ThisHost),
            other_host.deep_view() == on_side(all.take(k as int), system@, Side::OtherHost),
            shared.deep_view() == on_side(all.take(k as int), system@, Side::Shared),
        decreases changed.len() - k,
    {
        let path = changed[k].clone();
        let cs = chars_of(path.as_str());
        proof {
            assert(all.take(k + 1).drop_last() =~= all.take(k as int));
            assert(all.take(k + 1).last() == path@);
        }
        if has_prefix(cs.as_slice(), own_prefix.as_slice()) {
            let ghost before = this_host.deep_view();
            this_host.push(path);
            proof {
                assert(this_host.deep_view() =~= before.push(path@));
            }
        } else if has_prefix(cs.as_slice(), hosts_prefix.as_slice()) {
            let ghost before = other_host.deep_view();
            other_host.push(path);
            proof {
                assert(other_host.deep_view() =~= before.push(path@));
            }
        } else {
            let ghost before = shared.deep_view();
            shared.push(path);
            proof {
                assert(shared.deep_view() =~= before.push(path@));
            }
        }
        k += 1;
    }
    proof {
        assert(all.take(changed@.len() as int) =~= all);
    }
    (this_host, other_host, shared)
}

/// Whether the changes keep to one host, seen from the host `system`: nothing
/// where they do, and otherwise the headline to refuse the commit with and the
/// listing to show under it, rooted at `workdir`.
pub fn check_boundaries(system: &str, workdir: &str, changed: &[String]) -> (r: Option<(String, Tree<String>)>)
    ensures
        match r {
            None => boundary_headline(system@, changed.deep_view()) is None,
            Some((h, tree)) => {
                &&& boundary_headline(system@, changed.deep_view()) == Some(h@)
                &&& outline(tree) == boundary_lines(system@, workdir@, changed.deep_view())
                &&& glyphs_of(tree) == Some(dimmed_glyphs())
                &&& plain_below(tree)
            },
        },
{
    let (this_host, other_host, shared) = sort_by_side(system, changed);
    let ghost all = changed.deep_view();
    let headline_text = if other_host.len() > 0 {
        let mut h = paint(headline(), "this commit touches a host other than");
        h.append(" ");
        let mut quoted = "`".to_owned();
        quoted.append(system);
        quoted.append("`");
        let name = paint(Look::on_default(GREEN).bolded(), quoted.as_str());
        h.append(name.as_str());
        proof {
            reveal_strlit(" ");
            reveal_strlit("`");
            assert(h@ =~= foreign_headline(system@));
        }
        h
    } else if this_host.len() > 0 && shared.len() > 0 {
        paint(headline(), "this commit mixes host-specific and shared changes")
    } else {
        return None;
    };
    let mut tree = rooted(workdir);
    let groups = group_by_host(other_host.as_slice());
    let ghost hg = host_groups(other_host.deep_view());
    let mut i: usize = 0;
    proof {
        assert(groups_view(groups@).len() == groups@.len());
        assert(hg.take(0) =~= Seq::<(Seq<char>, Seq<char>, Seq<Seq<char>>)>::empty());
        assert(seq![(0nat, painted(dir(), root_label(workdir@)))] + foreign_lines(hg.take(0)) =~= outline(tree));
    }
    while i < groups.len()
        invariant
            groups_view(groups@) == hg,
            hg.len() == groups@.len(),
            0 <= i <= groups@.len(),
            outline(tree) == seq![(0nat, painted(dir(), root_label(workdir@)))] + foreign_lines(hg.take(i as int)),
            glyphs_of(tree) == Some(dimmed_glyphs()),
            plain_below(tree),
        decreases groups.len() - i,
    {
        let g = &groups[i];
        let leaf = group(g.0.as_str(), g.1, Look::on_default(RED), disallowed(), g.2.as_slice());
        proof {
            assert(groups_view(groups@)[i as int] == hg[i as int]);
            assert(hg.take(i + 1).drop_last() =~= hg.take(i as int));
            assert(hg.take(i + 1).last() == hg[i as int]);
        }
        let ghost before = palettes(tree);
        attach(&mut tree, leaf);
        proof {
            lemma_plain_below_grows(before, palettes(leaf));
        }
        i += 1;
    }
    proof {
        assert(hg.take(groups@.len() as int) =~= hg);
    }
    if this_host.len() > 0 {
        let mut label = "hosts/".to_owned();
        label.append(system);
        proof {
            reveal_strlit("hosts/");
            assert(label@ =~= system_dir(system@));
        }
        let paths = borrowed(&this_host);
        let leaf = group(label.as_str(), "this host", Look::on_default(GREEN), Look::plain(), paths.as_slice());
        let ghost before = palettes(tree);
        attach(&mut tree, leaf);
        proof {
            lemma_plain_below_grows(before, palettes(leaf));
        }
    }
    if shared.len() > 0 {
        let paths = borrowed(&shared);
        let leaf = group(":!hosts", "shared", Look::on_default(YELLOW), Look::plain(), paths.as_slice());
        let ghost before = palettes(tree);
        attach(&mut tree, leaf);
        proof {
            lemma_plain_below_grows(before, palettes(leaf));
        }
    }
    proof {
        assert(outline(tree) =~= boundary_lines(system@, workdir@, all));
    }
    Some((headline_text, tree))
}

} // verus!
