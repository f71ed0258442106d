//! What each relayed connection has used, and the report on it.
use vstd::prelude::*;
use vstd::string::*;

use crate::number::{decimal, print_number};
use crate::table::TextMap;
use crate::text::{split_of_free, split_of_sum, split_on};

verus! {

/// What one connection has used so far.
#[derive(Clone, Copy, Debug, PartialEq, Eq, Structural)]
pub struct Usage {
    /// For how long it has been relayed, in milliseconds.
    pub elapsed: usize,
    /// What went through it, in bits.
    pub total: usize,
    /// The highest speed seen, in bits per millisecond.
    pub highest: usize,
    /// The speed seen last, in bits per millisecond.
    pub speed: usize,
}

impl Usage {
    /// The usage of a connection that has just been made.
    pub fn none() -> (u: Usage)
        ensures
            u == (Usage { elapsed: 0, total: 0, highest: 0, speed: 0 }),
    {
        Usage { elapsed: 0, total: 0, highest: 0, speed: 0 }
    }
}

/// One line of the report.
pub struct UsageRow {
    /// The connection.
    pub ip: String,
    /// For how many full seconds it has been relayed.
    pub seconds: usize,
    /// What went through it, in bits.
    pub total: usize,
    /// The highest speed seen.
    pub highest: usize,
    /// The speed on average.
    pub average: usize,
    /// The speed seen last.
    pub speed: usize,
}

/// One line of the report, as contracts speak of it.
pub struct UsageRowView {
    pub ip: Seq<char>,
    pub seconds: int,
    pub total: int,
    pub highest: int,
    pub average: int,
    pub speed: int,
}

impl View for UsageRow {
    type V = UsageRowView;

    open spec fn view(&self) -> UsageRowView {
        UsageRowView {
            ip: self.ip@,
            seconds: self.seconds as int,
            total: self.total as int,
            highest: self.highest as int,
            average: self.average as int,
            speed: self.speed as int,
        }
    }
}

/// The rows as contracts speak of them.
pub open spec fn row_views(rows: Seq<UsageRow>) -> Seq<UsageRowView> {
    rows.map_values(|r: UsageRow| r@)
}

/// The row for one connection that has been relayed for a while.
pub open spec fn row_of(ip: Seq<char>, u: Usage) -> UsageRowView {
    UsageRowView {
        ip,
        seconds: u.elapsed as int / 1000,
        total: u.total as int,
        highest: u.highest as int,
        average: u.total as int / u.elapsed as int,
        speed: u.speed as int,
    }
}

/// The rows for the connections that have been relayed for a while, in the order of the entries.
pub open spec fn rows_of(pairs: Seq<(Seq<char>, Usage)>) -> Seq<UsageRowView>
    decreases pairs.len(),
{
    if pairs.len() == 0 {
        seq![]
    } else {
        let before = rows_of(pairs.drop_last());
        let p = pairs.last();
        if p.1.elapsed == 0 {
            before
        } else {
            before.push(row_of(p.0, p.1))
        }
    }
}

/// Whether what went through never increases from one row to a later one.
pub open spec fn largest_first(rows: Seq<UsageRowView>) -> bool {
    forall|i: int, j: int|
        0 <= i < j < rows.len() ==> (#[trigger] rows[i]).total >= (#[trigger] rows[j]).total
}

/// The text of one row. How many megabytes went through is a text of the caller's.
pub open spec fn row_text(row: UsageRowView, megabytes: Seq<char>) -> Seq<char> {
    row.ip + ": "@ + decimal(row.seconds as nat) + "s "@ + megabytes + "MB "@ + decimal(
        row.highest as nat,
    ) + "kb/s "@ + decimal(row.average as nat) + "kb/s "@ + decimal(row.speed as nat) + "kb/s\n"@
}

/// The text of all rows, one after the other.
pub open spec fn report_text(rows: Seq<UsageRowView>, megabytes: Seq<Seq<char>>) -> Seq<char>
    decreases rows.len(),
{
    if rows.len() == 0 {
        seq![]
    } else {
        report_text(rows.drop_last(), megabytes) + row_text(
            rows.last(),
            megabytes[rows.len() - 1],
        )
    }
}

/// Every row of the report belongs to a connection of the table that has been relayed for a
/// while, and every such connection has a row.
pub proof fn rows_are_the_connections(pairs: Seq<(Seq<char>, Usage)>, row: UsageRowView)
    ensures
        rows_of(pairs).contains(row) <==> exists|i: int|
            0 <= i < pairs.len() && (#[trigger] pairs[i]).1.elapsed != 0 && row == row_of(
                pairs[i].0,
                pairs[i].1,
            ),
    decreases pairs.len(),
{
    if pairs.len() > 0 {
        let rest = pairs.drop_last();
        let p = pairs.last();
        rows_are_the_connections(rest, row);
        let before = rows_of(rest);
        if rows_of(pairs).contains(row) {
            let k = choose|k: int| 0 <= k < rows_of(pairs).len() && rows_of(pairs)[k] == row;
            if k < before.len() {
                assert(before[k] == row);
                let i = choose|i: int|
                    0 <= i < rest.len() && (#[trigger] rest[i]).1.elapsed != 0 && row == row_of(
                        rest[i].0,
                        rest[i].1,
                    );
                assert(pairs[i] == rest[i]);
            } else {
                assert(pairs[pairs.len() - 1] == p);
            }
        }
        if exists|i: int|
            0 <= i < pairs.len() && (#[trigger] pairs[i]).1.elapsed != 0 && row == row_of(
                pairs[i].0,
                pairs[i].1,
            ) {
            let i = choose|i: int|
                0 <= i < pairs.len() && (#[trigger] pairs[i]).1.elapsed != 0 && row == row_of(
                    pairs[i].0,
                    pairs[i].1,
                );
            if i < rest.len() {
                assert(rest[i] == pairs[i]);
                assert(before.contains(row));
                let k = choose|k: int| 0 <= k < before.len() && before[k] == row;
                assert(rows_of(pairs)[k] == row);
            } else {
                assert(rows_of(pairs)[before.len() as int] == row);
            }
        }
    }
}

/// A report that holds the rows of a table, in whatever order, holds a row for each connection of
/// the table that has been relayed for a while, and no other row.
pub proof fn the_report_is_complete(table: &TextMap<Usage>, rows: Seq<UsageRowView>)
    requires
        table.wf(),
        rows.to_multiset() == rows_of(table.pairs()).to_multiset(),
    ensures
        forall|id: Seq<char>|
            table@.contains_key(id) && table@[id].elapsed != 0 ==> #[trigger] rows.contains(
                row_of(id, table@[id]),
            ),
        forall|i: int|
            0 <= i < rows.len() ==> table@.contains_key((#[trigger] rows[i]).ip)
                && table@[rows[i].ip].elapsed != 0 && rows[i] == row_of(
                rows[i].ip,
                table@[rows[i].ip],
            ),
{
    let pairs = table.pairs();
    let all = rows_of(pairs);
    table.pairs_are_the_table();
    assert forall|id: Seq<char>|
        table@.contains_key(id) && table@[id].elapsed != 0 implies #[trigger] rows.contains(
        row_of(id, table@[id]),
    ) by {
        let row = row_of(id, table@[id]);
        let i = choose|i: int| 0 <= i < pairs.len() && (#[trigger] pairs[i]).0 == id;
        assert(table@[pairs[i].0] == pairs[i].1);
        rows_are_the_connections(pairs, row);
        assert(all.contains(row));
        vstd::seq_lib::to_multiset_contains(all, row);
        vstd::seq_lib::to_multiset_contains(rows, row);
    }
    assert forall|i: int| 0 <= i < rows.len() implies table@.contains_key((#[trigger] rows[i]).ip)
        && table@[rows[i].ip].elapsed != 0 && rows[i] == row_of(rows[i].ip, table@[rows[i].ip]) by {
        let row = rows[i];
        assert(rows.contains(row));
        vstd::seq_lib::to_multiset_contains(rows, row);
        vstd::seq_lib::to_multiset_contains(all, row);
        rows_are_the_connections(pairs, row);
        let j = choose|j: int|
            0 <= j < pairs.len() && (#[trigger] pairs[j]).1.elapsed != 0 && row == row_of(
                pairs[j].0,
                pairs[j].1,
            );
        assert(table@.contains_key(pairs[j].0) && table@[pairs[j].0] == pairs[j].1);
    }
}

/// A connection that has not been looked at yet has no row.
pub proof fn new_connections_are_not_reported(pairs: Seq<(Seq<char>, Usage)>, id: Seq<char>)
    ensures
        rows_of(pairs.push((id, Usage { elapsed: 0, total: 0, highest: 0, speed: 0 }))) == rows_of(
            pairs,
        ),
{
    let all = pairs.push((id, Usage { elapsed: 0, total: 0, highest: 0, speed: 0 }));
    assert(all.drop_last() =~= pairs);
}

/// The rows of the report: the connections that have been relayed for a while, those through
/// which the most went first.
pub fn usage_rows(table: &TextMap<Usage>) -> (rows: Vec<UsageRow>)
    ensures
        row_views(rows@).to_multiset() == rows_of(table.pairs()).to_multiset(),
        largest_first(row_views(rows@)),
        forall|i: int, j: int|
            0 <= i < j < rows@.len() ==> (#[trigger] rows@[i]).total >= (#[trigger] rows@[j]).total,
{
    let mut rows: Vec<UsageRow> = Vec::new();
    let mut i: usize = 0;
    let ghost pairs = table.pairs();
    proof {
        assert(row_views(rows@) =~= seq![]);
        assert(pairs.take(0) =~= seq![]);
    }
    while i < table.len()
        invariant
            pairs == table.pairs(),
            i <= pairs.len(),
            row_views(rows@).to_multiset() == rows_of(pairs.take(i as int)).to_multiset(),
            largest_first(row_views(rows@)),
        decreases pairs.len() - i,
    {
        let u: Usage = *table.value_at(i);
        let ghost here = pairs.take(i + 1);
        proof {
            assert(here.drop_last() =~= pairs.take(i as int));
            assert(here.last() == pairs[i as int]);
        }
        if u.elapsed != 0 {
            let row = UsageRow {
                ip: table.key_at(i).to_owned(),
                seconds: u.elapsed / 1000,
                total: u.total,
                highest: u.highest,
                average: u.total / u.elapsed,
                speed: u.speed,
            };
            let ghost before = row_views(rows@);
            let ghost view = row@;
            assert(view == row_of(pairs[i as int].0, pairs[i as int].1));
            place_row(&mut rows, row);
            proof {
                vstd::seq_lib::to_multiset_build(rows_of(pairs.take(i as int)), view);
            }
        }
        i += 1;
    }
    assert(pairs.take(i as int) =~= pairs);
    assert forall|i: int, j: int| 0 <= i < j < rows@.len() implies (#[trigger] rows@[i]).total >= (
    #[trigger] rows@[j]).total by {
        assert(row_views(rows@)[i].total >= row_views(rows@)[j].total);
    }
    rows
}

/// Puts a row behind all rows through which as much went, and before the others.
fn place_row(rows: &mut Vec<UsageRow>, row: UsageRow)
    requires
        largest_first(row_views(old(rows)@)),
    ensures
        largest_first(row_views(final(rows)@)),
        row_views(final(rows)@).to_multiset() == row_views(old(rows)@).to_multiset().insert(row@),
{
    let mut p: usize = 0;
    while p < rows.len() && rows[p].total >= row.total
        invariant
            p <= rows@.len(),
            forall|j: int| 0 <= j < p ==> (#[trigger] row_views(rows@)[j]).total >= row@.total,
        ensures
            p <= rows@.len(),
            forall|j: int| 0 <= j < p ==> (#[trigger] row_views(rows@)[j]).total >= row@.total,
            p < rows@.len() ==> row_views(rows@)[p as int].total < row@.total,
        decreases rows@.len() - p,
    {
        assert(row_views(rows@)[p as int].total == rows@[p as int].total);
        p += 1;
    }
    let ghost before = row_views(rows@);
    let ghost view = row@;
    rows.insert(p, row);
    proof {
        let after = row_views(rows@);
        assert(after =~= before.insert(p as int, view));
        vstd::seq_lib::to_multiset_insert(before, p as int, view);
        assert forall|i: int, j: int| 0 <= i < j < after.len() implies (#[trigger] after[i]).total
            >= (#[trigger] after[j]).total by {
            let i0 = if i < p {
                i
            } else {
                i - 1
            };
            let j0 = if j < p {
                j
            } else {
                j - 1
            };
            if i != p && j != p {
                assert(before[i0].total >= before[j0].total);
            } else if i == p {
                assert(before[p as int].total < view.total);
                if j0 > p {
                    assert(before[p as int].total >= before[j0].total);
                }
            }
        }
    }
}

/// Writes one row.
pub fn write_row(row: &UsageRow, megabytes: &str) -> (s: String)
    ensures
        s@ == row_text(row@, megabytes@),
{
    let mut s = row.ip.clone();
    s.append(": ");
    s.append(print_number(row.seconds as u64).as_str());
    s.append("s ");
    s.append(megabytes);
    s.append("MB ");
    s.append(print_number(row.highest as u64).as_str());
    s.append("kb/s ");
    s.append(print_number(row.average as u64).as_str());
    s.append("kb/s ");
    s.append(print_number(row.speed as u64).as_str());
    s.append("kb/s\n");
    s
}

/// Writes the whole report. There is one text for the megabytes of each row.
pub fn write_report(rows: &Vec<UsageRow>, megabytes: &Vec<String>) -> (s: String)
    requires
        rows@.len() == megabytes@.len(),
    ensures
        s@ == report_text(row_views(rows@), crate::text::texts(megabytes@)),
{
    let mut s = String::new();
    let mut i: usize = 0;
    let ghost views = row_views(rows@);
    let ghost mbs = crate::text::texts(megabytes@);
    assert(views.take(0) =~= seq![]);
    while i < rows.len()
        invariant
            i <= rows@.len() == megabytes@.len(),
            views == row_views(rows@),
            mbs == crate::text::texts(megabytes@),
            s@ == report_text(views.take(i as int), mbs),
        decreases rows@.len() - i,
    {
        s.append(write_row(&rows[i], megabytes[i].as_str()).as_str());
        proof {
            assert(views.take(i + 1).drop_last() =~= views.take(i as int));
            assert(views.take(i + 1).last() == rows@[i as int]@);
            assert(mbs[i as int] == megabytes@[i as int]@);
        }
        i += 1;
    }
    assert(views.take(i as int) =~= views);
    s
}

/// A row says of a connection for how many full seconds it has been relayed and how fast it was
/// on average, rounded down; everything else is what was counted.
pub proof fn a_row_is_right(ip: Seq<char>, u: Usage)
    requires
        u.elapsed > 0,
    ensures
        ({
            let row = row_of(ip, u);
            &&& row.ip == ip
            &&& row.seconds * 1000 <= u.elapsed < (row.seconds + 1) * 1000
            &&& row.average * u.elapsed <= u.total < (row.average + 1) * u.elapsed
            &&& row.total == u.total && row.highest == u.highest && row.speed == u.speed
        }),
{
    let total = u.total as int;
    let elapsed = u.elapsed as int;
    let q = total / elapsed;
    assert(q * elapsed <= total < (q + 1) * elapsed) by (nonlinear_arith)
        requires
            q == total / elapsed,
            elapsed > 0,
            total >= 0,
    ;
}

/// No connection of a table has two rows.
proof fn lemma_rows_differ(pairs: Seq<(Seq<char>, Usage)>)
    requires
        crate::table::keys_differ(pairs),
    ensures
        forall|i: int, j: int|
            0 <= i < rows_of(pairs).len() && 0 <= j < rows_of(pairs).len() && i != j ==> (
            #[trigger] rows_of(pairs)[i]).ip != (#[trigger] rows_of(pairs)[j]).ip,
    decreases pairs.len(),
{
    if pairs.len() > 0 {
        let rest = pairs.drop_last();
        let p = pairs.last();
        assert(pairs[pairs.len() - 1] == p);
        assert forall|i: int, j: int| 0 <= i < rest.len() && 0 <= j < rest.len() && i != j implies (
        #[trigger] rest[i]).0 != (#[trigger] rest[j]).0 by {
            assert(rest[i] == pairs[i] && rest[j] == pairs[j]);
        }
        lemma_rows_differ(rest);
        let before = rows_of(rest);
        let rows = rows_of(pairs);
        assert forall|i: int| 0 <= i < before.len() implies (#[trigger] before[i]).ip != p.0 by {
            assert(before.contains(before[i]));
            rows_are_the_connections(rest, before[i]);
            let k = choose|k: int|
                0 <= k < rest.len() && (#[trigger] rest[k]).1.elapsed != 0 && before[i] == row_of(
                    rest[k].0,
                    rest[k].1,
                );
            assert(pairs[k] == rest[k]);
        }
        assert forall|i: int, j: int| 0 <= i < rows.len() && 0 <= j < rows.len() && i != j implies (
        #[trigger] rows[i]).ip != (#[trigger] rows[j]).ip by {
            if i < before.len() && j < before.len() {
                assert(rows[i] == before[i] && rows[j] == before[j]);
            } else if i < before.len() {
                assert(rows[i] == before[i]);
            } else {
                assert(rows[j] == before[j]);
            }
        }
    }
}

/// A report that holds the rows of a table, in whatever order, has at most one row for each
/// connection.
pub proof fn no_connection_is_reported_twice(table: &TextMap<Usage>, rows: Seq<UsageRowView>)
    requires
        table.wf(),
        rows.to_multiset() == rows_of(table.pairs()).to_multiset(),
    ensures
        forall|i: int, j: int|
            0 <= i < rows.len() && 0 <= j < rows.len() && i != j ==> (#[trigger] rows[i]).ip != (
            #[trigger] rows[j]).ip,
{
    let all = rows_of(table.pairs());
    lemma_rows_differ(table.pairs());
    the_report_is_complete(table, rows);
    assert(all.no_duplicates()) by {
        assert forall|i: int, j: int|
            0 <= i < all.len() && 0 <= j < all.len() && i != j implies all[i] != all[j] by {
            assert(all[i].ip != all[j].ip);
        }
    }
    all.lemma_multiset_has_no_duplicates();
    assert forall|x: UsageRowView| rows.to_multiset().contains(x) implies rows.to_multiset().count(x)
        == 1 by {
        assert(all.to_multiset().contains(x));
    }
    rows.lemma_multiset_has_no_duplicates_conv();
    assert forall|i: int, j: int| 0 <= i < rows.len() && 0 <= j < rows.len() && i != j implies (
    #[trigger] rows[i]).ip != (#[trigger] rows[j]).ip by {
        if rows[i].ip == rows[j].ip {
            assert(rows[i] == rows[j]);
        }
    }
}

proof fn lemma_decimal_has_no_blank(n: nat, unit: Seq<char>)
    requires
        !unit.contains(' '),
    ensures
        !(decimal(n) + unit).contains(' '),
{
    crate::number::decimal_is_digits(n);
    let s = decimal(n) + unit;
    if s.contains(' ') {
        let i = choose|i: int| 0 <= i < s.len() && s[i] == ' ';
        if i < decimal(n).len() {
            assert(crate::number::is_digit(decimal(n)[i]));
        } else {
            assert(unit[i - decimal(n).len()] == ' ');
        }
    }
}

/// One field more, and the blank behind it.
proof fn lemma_field(a: Seq<char>, p: Seq<char>, unit: Seq<char>, spaced: Seq<char>)
    requires
        spaced == unit.push(' '),
        !(p + unit).contains(' '),
    ensures
        a.push(' ') + p + spaced == (a.push(' ') + (p + unit)).push(' '),
        split_on(a.push(' ') + (p + unit), ' ') == split_on(a, ' ').push(p + unit),
{
    assert(a.push(' ') + p + spaced =~= (a.push(' ') + (p + unit)).push(' '));
    split_of_sum(a, p + unit, ' ');
    split_of_free(p + unit, ' ');
    assert(split_on(a, ' ') + seq![p + unit] =~= split_on(a, ' ').push(p + unit));
}

/// The units, with the blanks behind them, and without.
proof fn lemma_units()
    ensures
        ": "@ == ":"@.push(' '),
        "s "@ == "s"@.push(' '),
        "MB "@ == "MB"@.push(' '),
        "kb/s "@ == "kb/s"@.push(' '),
        !":"@.contains(' '),
        !"s"@.contains(' '),
        !"MB"@.contains(' '),
        !"kb/s"@.contains(' '),
        !"kb/s\n"@.contains(' '),
{
    reveal_strlit(": ");
    reveal_strlit("s ");
    reveal_strlit("MB ");
    reveal_strlit("kb/s ");
    reveal_strlit("kb/s\n");
    reveal_strlit(":");
    reveal_strlit("s");
    reveal_strlit("MB");
    reveal_strlit("kb/s");
    assert(":"@ =~= seq![':']);
    assert("s"@ =~= seq!['s']);
    assert("MB"@ =~= seq!['M', 'B']);
    assert("kb/s"@ =~= seq!['k', 'b', '/', 's']);
    assert("kb/s\n"@ =~= seq!['k', 'b', '/', 's', '\n']);
    assert(": "@ =~= ":"@.push(' '));
    assert("s "@ =~= "s"@.push(' '));
    assert("MB "@ =~= "MB"@.push(' '));
    assert("kb/s "@ =~= "kb/s"@.push(' '));
}

proof fn lemma_no_blank(a: Seq<char>, b: Seq<char>)
    requires
        !a.contains(' '),
        !b.contains(' '),
    ensures
        !(a + b).contains(' '),
{
    if (a + b).contains(' ') {
        let i = choose|i: int| 0 <= i < (a + b).len() && (a + b)[i] == ' ';
        if i < a.len() {
            assert(a[i] == ' ');
        } else {
            assert(b[i - a.len()] == ' ');
        }
    }
}

/// The line of the report on a connection has six fields with blanks between them: the
/// connection, the seconds, the megabytes, the highest speed, the average and the last speed, each
/// with its unit. A line feed ends it.
pub proof fn a_row_has_six_fields(row: UsageRowView, megabytes: Seq<char>)
    requires
        !row.ip.contains(' '),
        !megabytes.contains(' '),
    ensures
        split_on(row_text(row, megabytes), ' ') == seq![
            row.ip + ":"@,
            decimal(row.seconds as nat) + "s"@,
            megabytes + "MB"@,
            decimal(row.highest as nat) + "kb/s"@,
            decimal(row.average as nat) + "kb/s"@,
            decimal(row.speed as nat) + "kb/s\n"@,
        ],
{
    let seconds = decimal(row.seconds as nat);
    let highest = decimal(row.highest as nat);
    let average = decimal(row.average as nat);
    let speed = decimal(row.speed as nat);
    lemma_units();
    lemma_no_blank(row.ip, ":"@);
    lemma_no_blank(megabytes, "MB"@);
    lemma_decimal_has_no_blank(row.seconds as nat, "s"@);
    lemma_decimal_has_no_blank(row.highest as nat, "kb/s"@);
    lemma_decimal_has_no_blank(row.average as nat, "kb/s"@);
    lemma_decimal_has_no_blank(row.speed as nat, "kb/s\n"@);
    let a0 = row.ip + ":"@;
    let a1 = a0.push(' ') + (seconds + "s"@);
    let a2 = a1.push(' ') + (megabytes + "MB"@);
    let a3 = a2.push(' ') + (highest + "kb/s"@);
    let a4 = a3.push(' ') + (average + "kb/s"@);
    assert(row.ip + ": "@ =~= a0.push(' '));
    split_of_free(a0, ' ');
    lemma_field(a0, seconds, "s"@, "s "@);
    lemma_field(a1, megabytes, "MB"@, "MB "@);
    lemma_field(a2, highest, "kb/s"@, "kb/s "@);
    lemma_field(a3, average, "kb/s"@, "kb/s "@);
    split_of_sum(a4, speed + "kb/s\n"@, ' ');
    split_of_free(speed + "kb/s\n"@, ' ');
    assert(a4.push(' ') + speed + "kb/s\n"@ =~= a4.push(' ') + (speed + "kb/s\n"@));
    assert(row_text(row, megabytes) == a4.push(' ') + speed + "kb/s\n"@);
    assert(split_on(row_text(row, megabytes), ' ') =~= seq![
        a0,
        seconds + "s"@,
        megabytes + "MB"@,
        highest + "kb/s"@,
        average + "kb/s"@,
        speed + "kb/s\n"@,
    ]);
}

/// A report on one row more has the line of that row behind the others, which stay as they are.
pub proof fn a_report_grows_by_a_line(
    rows: Seq<UsageRowView>,
    megabytes: Seq<Seq<char>>,
    row: UsageRowView,
    more: Seq<char>,
)
    requires
        rows.len() == megabytes.len(),
    ensures
        report_text(rows.push(row), megabytes.push(more)) == report_text(rows, megabytes)
            + row_text(row, more),
        report_text(seq![], megabytes) == Seq::<char>::empty(),
{
    assert(rows.push(row).drop_last() =~= rows);
    lemma_report_prefix(rows, megabytes, megabytes.push(more));
}

/// Only the texts of the rows that there are matter.
proof fn lemma_report_prefix(
    rows: Seq<UsageRowView>,
    megabytes: Seq<Seq<char>>,
    others: Seq<Seq<char>>,
)
    requires
        forall|i: int| 0 <= i < rows.len() ==> #[trigger] megabytes[i] == others[i],
    ensures
        report_text(rows, megabytes) == report_text(rows, others),
    decreases rows.len(),
{
    if rows.len() > 0 {
        lemma_report_prefix(rows.drop_last(), megabytes, others);
        assert(megabytes[rows.len() - 1] == others[rows.len() - 1]);
    }
}

} // verus!
