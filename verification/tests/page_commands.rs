use calendar_pdf::page::{month_name, Command, DebugColor, Label, Page, Region, Rule, INDEX_YEAR};
use calendar_pdf::style::{Color, Font, Width};

fn day_labels(cmds: &[Command]) -> Vec<(u32, Region)> {
    cmds.iter()
        .filter_map(|c| match c {
            Command::Text(Label::Day(d), r, Color::Normal, Font::TimesRoman) => Some((*d, *r)),
            _ => None,
        })
        .collect()
}

#[test]
fn month_names() {
    assert_eq!(month_name(0), "January");
    assert_eq!(month_name(4), "May");
    assert_eq!(month_name(11), "December");
}

#[test]
fn month_page_of_february_2026() {
    let cmds = Page::Month(2026, 1).commands();
    assert_eq!(cmds.len(), 13 + 28);
    assert_eq!(cmds[0], Command::Line(Rule::MonthHeaderBottom, Width::Thick, Color::Strong));
    assert_eq!(cmds[1], Command::Line(Rule::MonthRow(1), Width::Normal, Color::Weak));
    assert_eq!(cmds[5], Command::Line(Rule::MonthRow(5), Width::Normal, Color::Weak));
    assert_eq!(cmds[6], Command::Line(Rule::MonthColumn(1), Width::Normal, Color::Weak));
    assert_eq!(cmds[11], Command::Line(Rule::MonthColumn(6), Width::Normal, Color::Weak));
    assert_eq!(cmds[12], Command::Text(Label::MonthName(1), Region::MonthTitle, Color::Strong, Font::TimesBold));
    // 2026-02-01 is a Sunday: last column of the first row.
    assert_eq!(cmds[13], Command::Text(Label::Day(1), Region::MonthDay(0, 6), Color::Normal, Font::TimesRoman));
    assert_eq!(cmds[40], Command::Text(Label::Day(28), Region::MonthDay(4, 5), Color::Normal, Font::TimesRoman));
}

#[test]
fn month_page_of_thirty_one_days() {
    // 2026-03-01 is a Sunday as well; March fills six rows.
    let cmds = Page::Month(2026, 2).commands();
    let days = day_labels(&cmds);
    assert_eq!(days.len(), 31);
    assert_eq!(days[30], (31, Region::MonthDay(5, 1)));
}

#[test]
fn index_page_layout() {
    let cmds = Page::Index.commands();
    assert_eq!(cmds[0], Command::Text(Label::Year(INDEX_YEAR), Region::IndexTitle, Color::Strong, Font::TimesBold));
    assert_eq!(cmds[1], Command::DebugRect(Region::IndexHeader, DebugColor::Blue));
    assert_eq!(cmds[2], Command::DebugRect(Region::IndexTitle, DebugColor::Red));
    assert_eq!(cmds[3], Command::Line(Rule::IndexHeaderBottom, Width::Thick, Color::Strong));
    assert_eq!(cmds[4], Command::Line(Rule::IndexRow(1), Width::Normal, Color::Strong));
    assert_eq!(cmds[5], Command::Line(Rule::IndexRow(2), Width::Normal, Color::Strong));
    assert_eq!(cmds[8], Command::Line(Rule::IndexColumn(3), Width::Normal, Color::Strong));
    // 9 fixed commands, then per month a title, its days and a link.
    assert_eq!(cmds.len(), 9 + 12 * 2 + 365);
    assert_eq!(cmds[9], Command::Text(Label::MonthName(0), Region::IndexMonthTitle(0), Color::Strong, Font::TimesBold));
    // 2026-01-01 is a Thursday.
    assert_eq!(cmds[10], Command::Text(Label::Day(1), Region::IndexDay(0, 0, 3), Color::Normal, Font::TimesRoman));
    assert_eq!(cmds[41], Command::Link(2, Region::IndexMonth(0)));
    assert_eq!(*cmds.last().unwrap(), Command::Link(13, Region::IndexMonth(11)));
}

#[test]
fn index_links_every_month_to_its_page() {
    let cmds = Page::Index.commands();
    let links: Vec<(usize, Region)> = cmds
        .iter()
        .filter_map(|c| match c {
            Command::Link(p, r) => Some((*p, *r)),
            _ => None,
        })
        .collect();
    assert_eq!(links.len(), 12);
    for (i, (page, region)) in links.iter().enumerate() {
        assert_eq!(*page, i + 2);
        assert_eq!(*region, Region::IndexMonth(i));
    }
}

#[test]
fn index_days_match_month_pages() {
    let index = Page::Index.commands();
    let index_days = day_labels(&index);
    let mut start: usize = 0;
    for m in 0..12usize {
        let page = Page::Month(INDEX_YEAR, m as i32).commands();
        let days = day_labels(&page);
        for (j, (d, r)) in days.iter().enumerate() {
            let (id, ir) = index_days[start + j];
            assert_eq!(id, *d);
            match (r, ir) {
                (Region::MonthDay(row, col), Region::IndexDay(i, irow, icol)) => {
                    assert_eq!((i, irow, icol), (m, *row, *col));
                }
                _ => panic!("unexpected regions"),
            }
        }
        start += days.len();
    }
    assert_eq!(start, index_days.len());
}
