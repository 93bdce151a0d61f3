//! What a calendar page draws, in order: rules, labels, day numbers and links,
//! each placed in a named region of the page. How a region maps to a
//! rectangle on screen or paper is up to the painter.
use vstd::prelude::*;
use crate::calendar::{
    days_in_month, grid_dates, grid_date, grid_fits, month_grid_fits, grid_len, lead_days, lemma_day_column,
    lemma_grid_date, lemma_grid_in_month, weekday_of, GRID_COLS, GRID_ROWS, MAX_YEAR, MIN_YEAR,
};
use crate::style::{Color, Font, Width};

verus! {

/// The year that the index page shows.
pub const INDEX_YEAR: i32 = 2026;

/// Months in a year.
pub const MONTHS: usize = 12;

/// The index page lays the months out in 3 rows of 4.
pub const INDEX_ROWS: u32 = 3;
pub const INDEX_COLS: u32 = 4;

/// A page of the calendar: the year at a glance, or one month (year, month
/// counted from 0 for January).
#[derive(Clone, Copy, Debug, PartialEq, Eq, Structural)]
pub enum Page {
    Index,
    Month(i32, i32),
}

/// A named part of a page.
#[derive(Clone, Copy, Debug, PartialEq, Eq, Structural)]
pub enum Region {
    /// The band at the top of the index page.
    IndexHeader,
    /// The year label inside that band.
    IndexTitle,
    /// The whole cell of a month on the index page.
    IndexMonth(usize),
    /// The title row of a month's cell on the index page.
    IndexMonthTitle(usize),
    /// A day of a month's cell on the index page: month, grid row, grid column.
    IndexDay(usize, usize, usize),
    /// The title row of a month page.
    MonthTitle,
    /// A day cell of a month page: grid row, grid column.
    MonthDay(usize, usize),
}

/// A straight rule across part of a page.
#[derive(Clone, Copy, Debug, PartialEq, Eq, Structural)]
pub enum Rule {
    /// The bottom edge of the index header.
    IndexHeaderBottom,
    /// The top edge of row `i` (of `INDEX_ROWS`) of the index's month cells.
    IndexRow(u32),
    /// The left edge of column `i` (of `INDEX_COLS`) of the index's month cells.
    IndexColumn(u32),
    /// The bottom edge of a month page's header row.
    MonthHeaderBottom,
    /// The top edge of week `i` (of `GRID_ROWS`) of a month page's grid.
    MonthRow(u32),
    /// The left edge of weekday `i` (of `GRID_COLS`) of a month page's grid.
    MonthColumn(u32),
}

/// What a text shows.
#[derive(Clone, Copy, Debug, PartialEq, Eq, Structural)]
pub enum Label {
    Year(i32),
    /// The name of a month, counted from 0 for January.
    MonthName(usize),
    /// A day of the month.
    Day(u32),
}

/// Colours of the outlines that only the screen shows, to debug a layout.
#[derive(Clone, Copy, Debug, PartialEq, Eq, Structural)]
pub enum DebugColor {
    Blue,
    Red,
}

/// One drawing call of a page.
#[derive(Clone, Copy, Debug, PartialEq, Eq, Structural)]
pub enum Command {
    Line(Rule, Width, Color),
    Text(Label, Region, Color, Font),
    DebugRect(Region, DebugColor),
    /// A link from a region to a page of the document (counted from 1).
    Link(usize, Region),
}

pub open spec fn month_name_view(i: int) -> Seq<char> {
    if i == 0 { "January"@ }
    else if i == 1 { "February"@ }
    else if i == 2 { "March"@ }
    else if i == 3 { "April"@ }
    else if i == 4 { "May"@ }
    else if i == 5 { "June"@ }
    else if i == 6 { "July"@ }
    else if i == 7 { "August"@ }
    else if i == 8 { "September"@ }
    else if i == 9 { "October"@ }
    else if i == 10 { "November"@ }
    else { "December"@ }
}

/// The English name of a month, counted from 0 for January.
pub fn month_name(i: usize) -> (r: &'static str)
    requires
        i < MONTHS,
    ensures
        r@ == month_name_view(i as int),
{
    if i == 0 { "January" }
    else if i == 1 { "February" }
    else if i == 2 { "March" }
    else if i == 3 { "April" }
    else if i == 4 { "May" }
    else if i == 5 { "June" }
    else if i == 6 { "July" }
    else if i == 7 { "August" }
    else if i == 8 { "September" }
    else if i == 9 { "October" }
    else if i == 10 { "November" }
    else { "December" }
}

/// The region of grid cell `k` (row `k / 7`, column `k % 7`): in the cell of
/// month `i` on the index page, or on a month page.
pub open spec fn day_region(index_month: Option<usize>, k: int) -> Region {
    match index_month {
        Some(i) => Region::IndexDay(i, (k / 7) as usize, (k % 7) as usize),
        None => Region::MonthDay((k / 7) as usize, (k % 7) as usize),
    }
}

/// The day numbers of month `m` of year `y`: day `j + 1` in the grid cell
/// `lead_days + j`, that is in the column of its weekday.
pub open spec fn day_labels(y: int, m: int, index_month: Option<usize>) -> Seq<Command> {
    Seq::new(
        days_in_month(y, m) as nat,
        |j: int|
            Command::Text(
                Label::Day((j + 1) as u32),
                day_region(index_month, lead_days(y, m) + j),
                Color::Normal,
                Font::TimesRoman,
            ),
    )
}

/// What the index page draws for month `i`: its name, its days, and a link
/// from its cell to its own page.
pub open spec fn index_month_commands(i: int) -> Seq<Command> {
    seq![Command::Text(Label::MonthName(i as usize), Region::IndexMonthTitle(i as usize), Color::Strong, Font::TimesBold)]
        + day_labels(INDEX_YEAR as int, i + 1, Some(i as usize))
        + seq![Command::Link((i + 2) as usize, Region::IndexMonth(i as usize))]
}

pub open spec fn index_months(n: int) -> Seq<Command>
    decreases n,
{
    if n <= 0 {
        Seq::empty()
    } else {
        index_months(n - 1) + index_month_commands(n - 1)
    }
}

pub open spec fn rules(rule: spec_fn(u32) -> Rule, n: int, width: Width, color: Color) -> Seq<Command> {
    Seq::new(n as nat, |j: int| Command::Line(rule((j + 1) as u32), width, color))
}

pub open spec fn index_commands() -> Seq<Command> {
    seq![
        Command::Text(Label::Year(INDEX_YEAR), Region::IndexTitle, Color::Strong, Font::TimesBold),
        Command::DebugRect(Region::IndexHeader, DebugColor::Blue),
        Command::DebugRect(Region::IndexTitle, DebugColor::Red),
        Command::Line(Rule::IndexHeaderBottom, Width::Thick, Color::Strong),
    ]
        + rules(|i: u32| Rule::IndexRow(i), INDEX_ROWS - 1, Width::Normal, Color::Strong)
        + rules(|i: u32| Rule::IndexColumn(i), INDEX_COLS - 1, Width::Normal, Color::Strong)
        + index_months(MONTHS as int)
}

pub open spec fn month_commands(y: int, mi: int) -> Seq<Command> {
    seq![Command::Line(Rule::MonthHeaderBottom, Width::Thick, Color::Strong)]
        + rules(|i: u32| Rule::MonthRow(i), GRID_ROWS - 1, Width::Normal, Color::Weak)
        + rules(|i: u32| Rule::MonthColumn(i), GRID_COLS - 1, Width::Normal, Color::Weak)
        + seq![Command::Text(Label::MonthName(mi as usize), Region::MonthTitle, Color::Strong, Font::TimesBold)]
        + day_labels(y, mi + 1, None)
}

impl Page {
    /// The pages that can be drawn: a month page needs a month from 0 to 11
    /// whose grid lies in chrono's range of dates.
    pub open spec fn is_drawable(self) -> bool {
        match self {
            Page::Index => true,
            Page::Month(y, m) => 0 <= m < 12 && grid_fits(y as int, m + 1),
        }
    }

    pub open spec fn command_list(self) -> Seq<Command> {
        match self {
            Page::Index => index_commands(),
            Page::Month(y, m) => month_commands(y as int, m as int),
        }
    }
}

/// How many day numbers of the month lie in the first `k` cells of its grid.
pub open spec fn shown_before(y: int, m: int, k: int) -> int {
    let n: int = k - lead_days(y, m);
    if n < 0 { 0 } else if n > days_in_month(y, m) { days_in_month(y, m) } else { n }
}

proof fn lemma_cell_position(row: int, col: int)
    requires
        0 <= row,
        0 <= col < 7,
    ensures
        (row * 7 + col) / 7 == row,
        (row * 7 + col) % 7 == col,
{
    vstd::arithmetic::div_mod::lemma_fundamental_div_mod_converse_div(row * 7 + col, 7, row, col);
    vstd::arithmetic::div_mod::lemma_fundamental_div_mod_converse_mod(row * 7 + col, 7, row, col);
}

/// Appends the day numbers of a month's grid, walking its cells row by row.
fn push_day_labels(cmds: &mut Vec<Command>, year: i32, month: u32, index_month: Option<usize>)
    requires
        grid_fits(year as int, month as int),
    ensures
        final(cmds)@ == old(cmds)@ + day_labels(year as int, month as int, index_month),
{
    let ghost y = year as int;
    let ghost m = month as int;
    let ghost labels = day_labels(y, m, index_month);
    let dates = grid_dates(year, month);
    let ghost base = cmds@;
    proof {
        lemma_grid_in_month(y, m, 0);
        assert(labels.take(0) =~= Seq::<Command>::empty());
        assert(cmds@ =~= base + labels.take(shown_before(y, m, 0)));
    }
    for row in 0..GRID_ROWS
        invariant
            grid_fits(y, m),
            y == year as int,
            m == month as int,
            labels == day_labels(y, m, index_month),
            dates.len() == grid_len(),
            forall|k: int| 0 <= k < grid_len() ==> #[trigger] dates@[k] == grid_date(y, m, k),
            cmds@ == base + labels.take(shown_before(y, m, row * GRID_COLS)),
    {
        for col in 0..GRID_COLS
            invariant
                grid_fits(y, m),
                y == year as int,
                m == month as int,
                row < GRID_ROWS,
                labels == day_labels(y, m, index_month),
                dates.len() == grid_len(),
                forall|k: int| 0 <= k < grid_len() ==> #[trigger] dates@[k] == grid_date(y, m, k),
                cmds@ == base + labels.take(shown_before(y, m, row * GRID_COLS + col)),
        {
            let k: usize = row * GRID_COLS + col;
            let date = dates[k];
            proof {
                lemma_grid_in_month(y, m, k as int);
                lemma_grid_date(y, m, k as int);
                lemma_cell_position(row as int, col as int);
            }
            if date.month == month {
                let region = match index_month {
                    Some(i) => Region::IndexDay(i, row, col),
                    None => Region::MonthDay(row, col),
                };
                let ghost before = cmds@;
                cmds.push(Command::Text(Label::Day(date.day), region, Color::Normal, Font::TimesRoman));
                proof {
                    let j: int = k - lead_days(y, m);
                    assert(labels[j] == Command::Text(Label::Day(date.day), region, Color::Normal, Font::TimesRoman));
                    assert(labels.take(j + 1) =~= labels.take(j).push(labels[j]));
                    assert(cmds@ =~= base + labels.take(shown_before(y, m, k + 1)));
                }
            } else {
                assert(shown_before(y, m, k + 1) == shown_before(y, m, k as int));
            }
        }
    }
    proof {
        lemma_grid_in_month(y, m, 0);
        assert(labels.take(shown_before(y, m, grid_len())) =~= labels);
    }
}

/// Appends rules `1 ..= n`, in order.
fn push_rules(cmds: &mut Vec<Command>, rule: Rule, n: u32, width: Width, color: Color)
    requires
        rule == Rule::IndexRow(0) || rule == Rule::IndexColumn(0) || rule == Rule::MonthRow(0)
            || rule == Rule::MonthColumn(0),
        n < 100,
    ensures
        final(cmds)@ == old(cmds)@ + rules(|i: u32| numbered_rule(rule, i), n as int, width, color),
{
    let ghost base = cmds@;
    let ghost f = |i: u32| numbered_rule(rule, i);
    for i in 1..n + 1
        invariant
            n < 100,
            f == (|i: u32| numbered_rule(rule, i)),
            cmds@ == base + rules(f, i - 1, width, color),
    {
        let line = match rule {
            Rule::IndexRow(_) => Rule::IndexRow(i),
            Rule::IndexColumn(_) => Rule::IndexColumn(i),
            Rule::MonthRow(_) => Rule::MonthRow(i),
            _ => Rule::MonthColumn(i),
        };
        cmds.push(Command::Line(line, width, color));
        proof {
            assert(rules(f, i as int, width, color) =~= rules(f, i - 1, width, color).push(Command::Line(line, width, color)));
        }
    }
}

/// The rule of the same kind as `rule`, numbered `i`.
pub open spec fn numbered_rule(rule: Rule, i: u32) -> Rule {
    match rule {
        Rule::IndexRow(_) => Rule::IndexRow(i),
        Rule::IndexColumn(_) => Rule::IndexColumn(i),
        Rule::MonthRow(_) => Rule::MonthRow(i),
        _ => Rule::MonthColumn(i),
    }
}

impl Page {
    /// Whether the page can be drawn (see `is_drawable`).
    pub fn drawable(&self) -> (r: bool)
        ensures
            r == self.is_drawable(),
    {
        match self {
            Page::Index => true,
            Page::Month(year, month) => 0 <= *month && *month < 12 && month_grid_fits(*year, (*month + 1) as u32),
        }
    }

    /// Everything the page draws, in the order it draws it.
    pub fn commands(&self) -> (r: Vec<Command>)
        requires
            self.is_drawable(),
        ensures
            r@ == self.command_list(),
    {
        let mut cmds: Vec<Command> = Vec::new();
        match self {
            Page::Index => {
                cmds.push(Command::Text(Label::Year(INDEX_YEAR), Region::IndexTitle, Color::Strong, Font::TimesBold));
                cmds.push(Command::DebugRect(Region::IndexHeader, DebugColor::Blue));
                cmds.push(Command::DebugRect(Region::IndexTitle, DebugColor::Red));
                cmds.push(Command::Line(Rule::IndexHeaderBottom, Width::Thick, Color::Strong));
                push_rules(&mut cmds, Rule::IndexRow(0), INDEX_ROWS - 1, Width::Normal, Color::Strong);
                push_rules(&mut cmds, Rule::IndexColumn(0), INDEX_COLS - 1, Width::Normal, Color::Strong);
                let ghost head = cmds@;
                proof {
                    assert(rules(|i: u32| numbered_rule(Rule::IndexRow(0), i), 2, Width::Normal, Color::Strong)
                        =~= rules(|i: u32| Rule::IndexRow(i), 2, Width::Normal, Color::Strong));
                    assert(rules(|i: u32| numbered_rule(Rule::IndexColumn(0), i), 3, Width::Normal, Color::Strong)
                        =~= rules(|i: u32| Rule::IndexColumn(i), 3, Width::Normal, Color::Strong));
                    assert(cmds@ =~= head + index_months(0));
                }
                for month_idx in 0..MONTHS
                    invariant
                        cmds@ == head + index_months(month_idx as int),
                {
                    let ghost before = cmds@;
                    cmds.push(
                        Command::Text(
                            Label::MonthName(month_idx),
                            Region::IndexMonthTitle(month_idx),
                            Color::Strong,
                            Font::TimesBold,
                        ),
                    );
                    push_day_labels(&mut cmds, INDEX_YEAR, (month_idx + 1) as u32, Some(month_idx));
                    cmds.push(Command::Link(month_idx + 2, Region::IndexMonth(month_idx)));
                    proof {
                        assert(cmds@ =~= before + index_month_commands(month_idx as int));
                        assert(cmds@ =~= head + index_months(month_idx + 1));
                    }
                }
                proof {
                    assert(cmds@ =~= index_commands());
                }
            },
            Page::Month(year, month) => {
                cmds.push(Command::Line(Rule::MonthHeaderBottom, Width::Thick, Color::Strong));
                push_rules(&mut cmds, Rule::MonthRow(0), (GRID_ROWS - 1) as u32, Width::Normal, Color::Weak);
                push_rules(&mut cmds, Rule::MonthColumn(0), (GRID_COLS - 1) as u32, Width::Normal, Color::Weak);
                cmds.push(
                    Command::Text(Label::MonthName(*month as usize), Region::MonthTitle, Color::Strong, Font::TimesBold),
                );
                push_day_labels(&mut cmds, *year, (*month + 1) as u32, None);
                proof {
                    assert(rules(|i: u32| numbered_rule(Rule::MonthRow(0), i), 5, Width::Normal, Color::Weak)
                        =~= rules(|i: u32| Rule::MonthRow(i), 5, Width::Normal, Color::Weak));
                    assert(rules(|i: u32| numbered_rule(Rule::MonthColumn(0), i), 6, Width::Normal, Color::Weak)
                        =~= rules(|i: u32| Rule::MonthColumn(i), 6, Width::Normal, Color::Weak));
                    assert(cmds@ =~= month_commands(*year as int, *month as int));
                }
            },
        }
        cmds
    }
}

/// A month page draws day `n` of its month once, as the `n`-th day number,
/// in the grid column of its weekday (Monday first) and within the six rows.
pub proof fn lemma_month_page_day(y: i32, mi: i32, n: int)
    requires
        Page::Month(y, mi).is_drawable(),
        1 <= n <= days_in_month(y as int, mi + 1),
    ensures
        ({
            let cmds = Page::Month(y, mi).command_list();
            let k: int = lead_days(y as int, mi + 1) + n - 1;
            &&& cmds.len() == 13 + days_in_month(y as int, mi + 1)
            &&& cmds[12 + n] == Command::Text(
                Label::Day(n as u32),
                Region::MonthDay((k / 7) as usize, (k % 7) as usize),
                Color::Normal,
                Font::TimesRoman,
            )
            &&& k % 7 == weekday_of(y as int, mi + 1, n)
            &&& 0 <= k / 7 < GRID_ROWS
        }),
{
    let m: int = mi + 1;
    lemma_day_column(y as int, m, n);
    let k: int = lead_days(y as int, m) + n - 1;
    vstd::arithmetic::div_mod::lemma_fundamental_div_mod(k, 7);
    vstd::arithmetic::div_mod::lemma_mod_bound(k, 7);
    let cmds = month_commands(y as int, mi as int);
    let head = seq![Command::Line(Rule::MonthHeaderBottom, Width::Thick, Color::Strong)]
        + rules(|i: u32| Rule::MonthRow(i), GRID_ROWS - 1, Width::Normal, Color::Weak)
        + rules(|i: u32| Rule::MonthColumn(i), GRID_COLS - 1, Width::Normal, Color::Weak)
        + seq![Command::Text(Label::MonthName(mi as usize), Region::MonthTitle, Color::Strong, Font::TimesBold)];
    assert(head.len() == 13);
    assert(cmds == head + day_labels(y as int, m, None));
    assert(cmds[12 + n] == day_labels(y as int, m, None)[n - 1]);
}

/// The twelve month names are the English names of January to December, in
/// calendar order, and no two months share a name.
pub proof fn lemma_month_names()
    ensures
        forall|i: int| 0 <= i < 12 ==> #[trigger] month_name_view(i) == seq![
            "January"@, "February"@, "March"@, "April"@, "May"@, "June"@,
            "July"@, "August"@, "September"@, "October"@, "November"@, "December"@,
        ][i],
        forall|i: int, j: int|
            0 <= i < 12 && 0 <= j < 12 && i != j ==> #[trigger] month_name_view(i) != #[trigger] month_name_view(j),
{
    reveal_strlit("January");
    reveal_strlit("February");
    reveal_strlit("March");
    reveal_strlit("April");
    reveal_strlit("May");
    reveal_strlit("June");
    reveal_strlit("July");
    reveal_strlit("August");
    reveal_strlit("September");
    reveal_strlit("October");
    reveal_strlit("November");
    reveal_strlit("December");
    assert forall|i: int, j: int|
        0 <= i < 12 && 0 <= j < 12 && i != j implies #[trigger] month_name_view(i) != #[trigger] month_name_view(j) by {
        let a = month_name_view(i);
        let b = month_name_view(j);
        if a.len() == b.len() {
            if a[0] == b[0] {
                assert(a[2] != b[2]);
            } else {
                assert(a[0] != b[0]);
            }
        }
    }
}

/// A month page can be drawn exactly when its month is counted from 0 to 11
/// and its grid stays within chrono's dates: all months of all years that
/// chrono holds, except January of the first year and December of the last.
pub proof fn lemma_month_page_drawable(y: i32, m: i32)
    ensures
        Page::Month(y, m).is_drawable() == (0 <= m < 12 && MIN_YEAR <= y <= MAX_YEAR
            && !(y == MIN_YEAR && m == 0) && !(y == MAX_YEAR && m == 11)),
{
}

/// Every month page that the index links to can be drawn.
pub proof fn lemma_index_targets_drawable()
    ensures
        forall|i: i32| 0 <= i < 12 ==> #[trigger] Page::Month(INDEX_YEAR, i).is_drawable(),
{
}

/// A month page is titled with its own month.
pub proof fn lemma_month_page_title(y: i32, mi: i32)
    requires
        Page::Month(y, mi).is_drawable(),
    ensures
        Page::Month(y, mi).command_list().len() > 12,
        Page::Month(y, mi).command_list()[12] == Command::Text(
            Label::MonthName(mi as usize),
            Region::MonthTitle,
            Color::Strong,
            Font::TimesBold,
        ),
{
    let cmds = month_commands(y as int, mi as int);
    let head = seq![Command::Line(Rule::MonthHeaderBottom, Width::Thick, Color::Strong)]
        + rules(|i: u32| Rule::MonthRow(i), GRID_ROWS - 1, Width::Normal, Color::Weak)
        + rules(|i: u32| Rule::MonthColumn(i), GRID_COLS - 1, Width::Normal, Color::Weak);
    assert(head.len() == 12);
    assert(cmds[12] == (head + seq![Command::Text(Label::MonthName(mi as usize), Region::MonthTitle, Color::Strong, Font::TimesBold)])[12]);
}

proof fn lemma_index_months_prefix(i: int, n: int)
    requires
        0 <= i <= n,
    ensures
        index_months(i).len() <= index_months(n).len(),
        forall|k: int| 0 <= k < index_months(i).len() ==> #[trigger] index_months(n)[k] == index_months(i)[k],
    decreases n - i,
{
    if i < n {
        lemma_index_months_prefix(i, n - 1);
        assert(index_months(n) == index_months(n - 1) + index_month_commands(n - 1));
    }
}

/// On the index page, each month `i` has a block of its own: its title
/// (the name of month `i`, in the title row of cell `i`), then its day
/// numbers 1, 2, ... in cell `i`, each in the column of its weekday, then the
/// link from cell `i` to page `i + 2`.
pub proof fn lemma_index_month_cell(i: int)
    requires
        0 <= i < MONTHS,
    ensures
        exists|p: int|
            #![trigger Page::Index.command_list()[p]]
            0 <= p && p + days_in_month(INDEX_YEAR as int, i + 1) + 1 < Page::Index.command_list().len()
            && Page::Index.command_list()[p] == Command::Text(
                Label::MonthName(i as usize),
                Region::IndexMonthTitle(i as usize),
                Color::Strong,
                Font::TimesBold,
            )
            && (forall|j: int| 0 <= j < days_in_month(INDEX_YEAR as int, i + 1) ==>
                #[trigger] Page::Index.command_list()[p + 1 + j] == Command::Text(
                    Label::Day((j + 1) as u32),
                    Region::IndexDay(
                        i as usize,
                        ((lead_days(INDEX_YEAR as int, i + 1) + j) / 7) as usize,
                        ((lead_days(INDEX_YEAR as int, i + 1) + j) % 7) as usize,
                    ),
                    Color::Normal,
                    Font::TimesRoman,
                ))
            && Page::Index.command_list()[p + 1 + days_in_month(INDEX_YEAR as int, i + 1)]
                == Command::Link((i + 2) as usize, Region::IndexMonth(i as usize)),
{
    let cmds = Page::Index.command_list();
    let head = seq![
        Command::Text(Label::Year(INDEX_YEAR), Region::IndexTitle, Color::Strong, Font::TimesBold),
        Command::DebugRect(Region::IndexHeader, DebugColor::Blue),
        Command::DebugRect(Region::IndexTitle, DebugColor::Red),
        Command::Line(Rule::IndexHeaderBottom, Width::Thick, Color::Strong),
    ]
        + rules(|i: u32| Rule::IndexRow(i), INDEX_ROWS - 1, Width::Normal, Color::Strong)
        + rules(|i: u32| Rule::IndexColumn(i), INDEX_COLS - 1, Width::Normal, Color::Strong);
    assert(head.len() == 9);
    assert(cmds == head + index_months(MONTHS as int));
    let a = index_months(i);
    let block = index_month_commands(i);
    let labels = day_labels(INDEX_YEAR as int, i + 1, Some(i as usize));
    let dim = days_in_month(INDEX_YEAR as int, i + 1);
    let lead = lead_days(INDEX_YEAR as int, i + 1);
    assert(index_months(i + 1) == a + block);
    lemma_index_months_prefix(i + 1, MONTHS as int);
    assert(block.len() == dim + 2);
    let p: int = 9 + a.len() as int;
    assert forall|k: int| 0 <= k < block.len() implies cmds[p + k] == block[k] by {
        assert(cmds[p + k] == index_months(MONTHS as int)[a.len() + k]);
        assert(index_months(i + 1)[a.len() + k] == block[k]);
    }
    assert(cmds[p] == block[0]);
    assert forall|j: int| 0 <= j < dim implies #[trigger] cmds[p + 1 + j] == Command::Text(
        Label::Day((j + 1) as u32),
        Region::IndexDay(i as usize, ((lead + j) / 7) as usize, ((lead + j) % 7) as usize),
        Color::Normal,
        Font::TimesRoman,
    ) by {
        assert(cmds[p + (1 + j)] == block[1 + j]);
        assert(block[1 + j] == labels[j]);
    }
    assert(cmds[p + (1 + dim)] == block[1 + dim]);
}

/// The index page draws nothing but its nine fixed commands and, for each of
/// the twelve months, a title, a link and its days: 2 * 12 + 365 commands for
/// the 365 days of 2026.
pub proof fn lemma_index_size()
    ensures
        Page::Index.command_list().len() == 9 + 2 * 12 + 365,
{
    lemma_index_months_len(12);
}

proof fn lemma_index_months_len(n: int)
    requires
        0 <= n <= 12,
    ensures
        index_months(n).len() == 2 * n + (if n < 12 {
            crate::calendar::days_before_month(INDEX_YEAR as int, n + 1)
        } else {
            365
        }),
    decreases n,
{
    if n > 0 {
        lemma_index_months_len(n - 1);
        assert(index_months(n) == index_months(n - 1) + index_month_commands(n - 1));
    }
}

} // verus!
