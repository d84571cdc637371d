//! The error report that `check` and `convert` print: errors grouped by
//! file, the files in order of their names, each file's errors in order of
//! line and column (errors at the same place in the order they came), and a
//! closing count.
use vstd::prelude::*;
use crate::ast::nat_decimal;
use crate::text::{chars_of, usize_to_string};

verus! {

/// One error to report: its file, line and column (line 0 for none), and
/// message.
pub struct ReportRow {
    pub file: String,
    pub line: usize,
    pub col: usize,
    pub message: String,
}

/// An error of a file: line, column and message.
pub type EntryV = (nat, nat, Seq<char>);

pub open spec fn row_entry(r: ReportRow) -> EntryV {
    (r.line as nat, r.col as nat, r.message@)
}

/// Whether `a` comes before `b` in the order of text: the first character
/// that differs decides, a proper prefix comes first.
pub open spec fn text_lt(a: Seq<char>, b: Seq<char>) -> bool
    decreases a.len(),
{
    if b.len() == 0 {
        false
    } else if a.len() == 0 {
        true
    } else if a[0] != b[0] {
        (a[0] as u32) < (b[0] as u32)
    } else {
        text_lt(a.drop_first(), b.drop_first())
    }
}

/// Whether an error lies strictly before another: by line, then column.
pub open spec fn place_lt(a: EntryV, b: EntryV) -> bool {
    a.0 < b.0 || (a.0 == b.0 && a.1 < b.1)
}

/// Where an error goes among a file's errors, which are in order: after
/// every one that does not lie after it.
pub open spec fn entry_pos(es: Seq<EntryV>, x: EntryV) -> nat
    decreases es.len(),
{
    if es.len() == 0 || place_lt(x, es[0]) { 0 } else { 1 + entry_pos(es.drop_first(), x) }
}

/// Where a file's group is, or goes, among the groups, which are in order
/// of their file names; and whether it is there already.
pub open spec fn group_pos(gs: Seq<(Seq<char>, Seq<EntryV>)>, f: Seq<char>) -> (nat, bool)
    decreases gs.len(),
{
    if gs.len() == 0 {
        (0, false)
    } else if gs[0].0 == f {
        (0, true)
    } else if text_lt(f, gs[0].0) {
        (0, false)
    } else {
        let (k, found) = group_pos(gs.drop_first(), f);
        (k + 1, found)
    }
}

/// The groups with one more error added.
pub open spec fn add_row(gs: Seq<(Seq<char>, Seq<EntryV>)>, f: Seq<char>, e: EntryV) -> Seq<(Seq<char>, Seq<EntryV>)> {
    let (k, found) = group_pos(gs, f);
    if found {
        gs.update(k as int, (f, gs[k as int].1.insert(entry_pos(gs[k as int].1, e) as int, e)))
    } else {
        gs.insert(k as int, (f, seq![e]))
    }
}

/// The errors grouped by file.
pub open spec fn groups_of(rows: Seq<ReportRow>) -> Seq<(Seq<char>, Seq<EntryV>)>
    decreases rows.len(),
{
    if rows.len() == 0 {
        Seq::empty()
    } else {
        add_row(groups_of(rows.drop_last()), rows.last().file@, row_entry(rows.last()))
    }
}

pub open spec fn entry_line(e: EntryV) -> Seq<char> {
    if e.0 > 0 {
        "    ["@ + nat_decimal(e.0) + ":"@ + nat_decimal(e.1) + "] "@ + e.2 + "\n"@
    } else {
        "    "@ + e.2 + "\n"@
    }
}

pub open spec fn entries_text(es: Seq<EntryV>) -> Seq<char>
    decreases es.len(),
{
    if es.len() == 0 { Seq::empty() } else { entries_text(es.drop_last()) + entry_line(es.last()) }
}

pub open spec fn groups_text(gs: Seq<(Seq<char>, Seq<EntryV>)>) -> Seq<char>
    decreases gs.len(),
{
    if gs.len() == 0 {
        Seq::empty()
    } else {
        groups_text(gs.drop_last()) + "\n  "@ + gs.last().0 + ":\n"@ + entries_text(gs.last().1)
    }
}

/// The whole report: each file's group, a blank line, and the count of
/// errors and of files.
pub open spec fn report_text(rows: Seq<ReportRow>, noun: Seq<char>) -> Seq<char> {
    let gs = groups_of(rows);
    groups_text(gs) + "\n"@ + nat_decimal(rows.len()) + " "@ + noun + " in "@ + nat_decimal(gs.len()) + " file(s)\n"@
}

fn text_less(a: &str, b: &str) -> (r: bool)
    ensures
        r == text_lt(a@, b@),
{
    let av = chars_of(a);
    let bv = chars_of(b);
    let mut i: usize = 0;
    proof {
        assert(av@.subrange(0, av@.len() as int) =~= av@);
        assert(bv@.subrange(0, bv@.len() as int) =~= bv@);
    }
    while i < av.len() && i < bv.len() && av[i] == bv[i]
        invariant
            i <= av@.len(),
            i <= bv@.len(),
            text_lt(a@, b@) == text_lt(av@.subrange(i as int, av@.len() as int), bv@.subrange(i as int, bv@.len() as int)),
            av@ == a@,
            bv@ == b@,
        decreases av@.len() - i,
    {
        proof {
            let x = av@.subrange(i as int, av@.len() as int);
            let y = bv@.subrange(i as int, bv@.len() as int);
            assert(x.drop_first() =~= av@.subrange(i + 1, av@.len() as int));
            assert(y.drop_first() =~= bv@.subrange(i + 1, bv@.len() as int));
            assert(x[0] == av@[i as int]);
            assert(y[0] == bv@[i as int]);
        }
        i = i + 1;
    }
    proof {
        let x = av@.subrange(i as int, av@.len() as int);
        let y = bv@.subrange(i as int, bv@.len() as int);
        if i < av@.len() {
            assert(x[0] == av@[i as int]);
        }
        if i < bv@.len() {
            assert(y[0] == bv@[i as int]);
        }
    }
    if i == bv.len() {
        false
    } else if i == av.len() {
        true
    } else {
        (av[i] as u32) < (bv[i] as u32)
    }
}

pub struct GroupEntry {
    pub line: usize,
    pub col: usize,
    pub message: String,
}

pub open spec fn group_entries(es: Seq<GroupEntry>) -> Seq<EntryV> {
    es.map_values(|e: GroupEntry| (e.line as nat, e.col as nat, e.message@))
}

pub open spec fn groups_view(gs: Seq<(String, Vec<GroupEntry>)>) -> Seq<(Seq<char>, Seq<EntryV>)> {
    gs.map_values(|g: (String, Vec<GroupEntry>)| (g.0@, group_entries(g.1@)))
}

proof fn lemma_entry_pos(es: Seq<EntryV>, x: EntryV, k: int)
    requires
        0 <= k <= es.len(),
        forall|j: int| 0 <= j < k ==> !place_lt(x, #[trigger] es[j]),
    ensures
        entry_pos(es, x) == k + entry_pos(es.subrange(k, es.len() as int), x),
    decreases k,
{
    if k == 0 {
        assert(es.subrange(0, es.len() as int) =~= es);
    } else {
        assert(!place_lt(x, es[0]));
        assert forall|j: int| 0 <= j < k - 1 implies !place_lt(x, #[trigger] es.drop_first()[j]) by {
            assert(es.drop_first()[j] == es[j + 1]);
        }
        lemma_entry_pos(es.drop_first(), x, k - 1);
        assert(es.drop_first().subrange(k - 1, es.len() - 1) =~= es.subrange(k, es.len() as int));
    }
}

fn find_entry_pos(es: &Vec<GroupEntry>, line: usize, col: usize, msg: &String) -> (r: usize)
    ensures
        r as nat == entry_pos(group_entries(es@), (line as nat, col as nat, msg@)),
        r <= es@.len(),
{
    let ghost g = group_entries(es@);
    let ghost x = (line as nat, col as nat, msg@);
    let mut k: usize = 0;
    while k < es.len() && !(line < es[k].line || (line == es[k].line && col < es[k].col))
        invariant
            k <= es@.len(),
            g == group_entries(es@),
            g.len() == es@.len(),
            x == (line as nat, col as nat, msg@),
            forall|j: int| 0 <= j < k ==> !place_lt(x, #[trigger] g[j]),
        decreases es@.len() - k,
    {
        proof {
            assert(g[k as int] == (es@[k as int].line as nat, es@[k as int].col as nat, es@[k as int].message@));
            assert(!place_lt(x, g[k as int]));
        }
        k = k + 1;
    }
    proof {
        lemma_entry_pos(g, x, k as int);
        let rest = g.subrange(k as int, g.len() as int);
        if k < es@.len() {
            assert(rest[0] == g[k as int]);
            assert(g[k as int] == (es@[k as int].line as nat, es@[k as int].col as nat, es@[k as int].message@));
        }
    }
    k
}

proof fn lemma_group_pos(gs: Seq<(Seq<char>, Seq<EntryV>)>, f: Seq<char>, k: int)
    requires
        0 <= k <= gs.len(),
        forall|j: int| 0 <= j < k ==> (#[trigger] gs[j]).0 != f && !text_lt(f, gs[j].0),
    ensures
        group_pos(gs, f) == ((k + group_pos(gs.subrange(k, gs.len() as int), f).0) as nat,
            group_pos(gs.subrange(k, gs.len() as int), f).1),
    decreases k,
{
    if k == 0 {
        assert(gs.subrange(0, gs.len() as int) =~= gs);
    } else {
        assert(gs[0].0 != f && !text_lt(f, gs[0].0));
        assert forall|j: int| 0 <= j < k - 1 implies (#[trigger] gs.drop_first()[j]).0 != f
            && !text_lt(f, gs.drop_first()[j].0) by {
            assert(gs.drop_first()[j] == gs[j + 1]);
        }
        lemma_group_pos(gs.drop_first(), f, k - 1);
        assert(gs.drop_first().subrange(k - 1, gs.len() - 1) =~= gs.subrange(k, gs.len() as int));
    }
}

fn find_group(gs: &Vec<(String, Vec<GroupEntry>)>, f: &String) -> (r: (usize, bool))
    ensures
        (r.0 as nat, r.1) == group_pos(groups_view(gs@), f@),
        r.1 ==> r.0 < gs@.len() && gs@[r.0 as int].0@ == f@,
        r.0 <= gs@.len(),
{
    let ghost g = groups_view(gs@);
    let mut k: usize = 0;
    while k < gs.len()
        invariant
            k <= gs@.len(),
            g == groups_view(gs@),
            g.len() == gs@.len(),
            forall|j: int| 0 <= j < k ==> (#[trigger] g[j]).0 != f@ && !text_lt(f@, g[j].0),
        decreases gs@.len() - k,
    {
        proof {
            assert(g[k as int].0 == gs@[k as int].0@);
        }
        if gs[k].0 == *f {
            proof {
                lemma_group_pos(g, f@, k as int);
                assert(g.subrange(k as int, g.len() as int)[0] == g[k as int]);
            }
            return (k, true);
        }
        if text_less(f.as_str(), gs[k].0.as_str()) {
            proof {
                lemma_group_pos(g, f@, k as int);
                assert(g.subrange(k as int, g.len() as int)[0] == g[k as int]);
            }
            return (k, false);
        }
        k = k + 1;
    }
    proof {
        lemma_group_pos(g, f@, k as int);
        assert(g.subrange(k as int, g.len() as int).len() == 0);
    }
    (k, false)
}

fn add_entry(gs: &mut Vec<(String, Vec<GroupEntry>)>, row: &ReportRow)
    ensures
        groups_view(final(gs)@) == add_row(groups_view(old(gs)@), row.file@, row_entry(*row)),
{
    let ghost g0 = groups_view(gs@);
    let (k, found) = find_group(gs, &row.file);
    let e = GroupEntry { line: row.line, col: row.col, message: row.message.clone() };
    if found {
        proof {
            assert(g0[k as int].0 == gs@[k as int].0@);
        }
        let mut grp = gs.remove(k);
        let ghost es0 = grp.1@;
        let p = find_entry_pos(&grp.1, row.line, row.col, &row.message);
        grp.1.insert(p, e);
        let ghost name = grp.0@;
        gs.insert(k, grp);
        proof {
            assert(group_entries(grp.1@) =~= group_entries(es0).insert(p as int, row_entry(*row)));
            assert(name == row.file@);
            assert(groups_view(gs@) =~= g0.update(k as int, (row.file@, g0[k as int].1.insert(p as int, row_entry(*row)))));
        }
    } else {
        let mut v: Vec<GroupEntry> = Vec::new();
        v.push(e);
        gs.insert(k, (row.file.clone(), v));
        proof {
            assert(group_entries(v@) =~= seq![row_entry(*row)]);
            assert(groups_view(gs@) =~= g0.insert(k as int, (row.file@, seq![row_entry(*row)])));
        }
    }
}

fn push_entries(out: &mut String, es: &Vec<GroupEntry>)
    ensures
        final(out)@ == old(out)@ + entries_text(group_entries(es@)),
{
    let ghost o0 = out@;
    let ghost g = group_entries(es@);
    let mut i: usize = 0;
    proof {
        assert(g.subrange(0, 0) =~= Seq::<EntryV>::empty());
        assert(o0 + Seq::<char>::empty() =~= o0);
    }
    while i < es.len()
        invariant
            i <= es@.len(),
            g == group_entries(es@),
            g.len() == es@.len(),
            out@ == o0 + entries_text(g.subrange(0, i as int)),
        decreases es@.len() - i,
    {
        let ghost before = out@;
        let en = &es[i];
        if en.line > 0 {
            out.append("    [");
            let l = usize_to_string(en.line);
            out.append(l.as_str());
            out.append(":");
            let c = usize_to_string(en.col);
            out.append(c.as_str());
            out.append("] ");
        } else {
            out.append("    ");
        }
        out.append(en.message.as_str());
        out.append("\n");
        proof {
            assert(g[i as int] == (en.line as nat, en.col as nat, en.message@));
            assert(g.subrange(0, i + 1).drop_last() =~= g.subrange(0, i as int));
            assert(out@ =~= before + entry_line(g[i as int]));
            assert(o0 + entries_text(g.subrange(0, i as int)) + entry_line(g[i as int])
                =~= o0 + entries_text(g.subrange(0, i + 1)));
        }
        i = i + 1;
    }
    proof {
        assert(g.subrange(0, g.len() as int) =~= g);
    }
}

/// The report of a list of errors: grouped by file in order of the file
/// names, each file's errors in order of line and column, errors at the same
/// place in the order given, and the closing count, `noun` naming what is
/// counted.
pub fn error_report(rows: &Vec<ReportRow>, noun: &str) -> (r: String)
    ensures
        r@ == report_text(rows@, noun@),
{
    let mut gs: Vec<(String, Vec<GroupEntry>)> = Vec::new();
    let mut i: usize = 0;
    proof {
        assert(rows@.subrange(0, 0) =~= Seq::<ReportRow>::empty());
        assert(groups_view(gs@) =~= Seq::<(Seq<char>, Seq<EntryV>)>::empty());
    }
    while i < rows.len()
        invariant
            i <= rows@.len(),
            groups_view(gs@) == groups_of(rows@.subrange(0, i as int)),
        decreases rows@.len() - i,
    {
        proof {
            assert(rows@.subrange(0, i + 1).drop_last() =~= rows@.subrange(0, i as int));
            assert(rows@.subrange(0, i + 1).last() == rows@[i as int]);
        }
        add_entry(&mut gs, &rows[i]);
        i = i + 1;
    }
    proof {
        assert(rows@.subrange(0, rows@.len() as int) =~= rows@);
    }
    let ghost g = groups_view(gs@);
    let mut out = String::new();
    let mut j: usize = 0;
    proof {
        assert(g.subrange(0, 0) =~= Seq::<(Seq<char>, Seq<EntryV>)>::empty());
        assert(out@ =~= groups_text(g.subrange(0, 0)));
    }
    while j < gs.len()
        invariant
            j <= gs@.len(),
            g == groups_view(gs@),
            g.len() == gs@.len(),
            out@ == groups_text(g.subrange(0, j as int)),
        decreases gs@.len() - j,
    {
        let ghost before = out@;
        out.append("\n  ");
        out.append(gs[j].0.as_str());
        out.append(":\n");
        push_entries(&mut out, &gs[j].1);
        proof {
            assert(g[j as int] == (gs@[j as int].0@, group_entries(gs@[j as int].1@)));
            assert(g.subrange(0, j + 1).drop_last() =~= g.subrange(0, j as int));
            assert(out@ =~= before + "\n  "@ + g[j as int].0 + ":\n"@ + entries_text(g[j as int].1));
        }
        j = j + 1;
    }
    proof {
        assert(g.subrange(0, g.len() as int) =~= g);
    }
    out.append("\n");
    let t = usize_to_string(rows.len());
    out.append(t.as_str());
    out.append(" ");
    out.append(noun);
    out.append(" in ");
    let n = usize_to_string(gs.len());
    out.append(n.as_str());
    out.append(" file(s)\n");
    out
}

} // verus!
