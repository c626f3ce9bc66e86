use vstd::prelude::*;
use crate::contest::{Contest, ContestView, Host, opt_view, views};
use crate::error::FetchError;
use crate::order::{sort_by_start, sorted_by_start, sort_contests, lemma_sort_by_start};
use crate::tokyo::{parse_tokyo_time, tokyo_local_parse};
use scraper::{ElementRef, Html, Selector};

verus! {

/// Page that lists the HTML provider's upcoming contests.
pub const ATCODER_URL: &'static str = "https://atcoder.jp/home?lang=ja";

/// Origin that the contest links on the page are relative to.
pub const ATCODER_ORIGIN: &'static str = "https://atcoder.jp";

/// One row per upcoming contest.
pub const ROW_SELECTOR: &'static str = "#contest-table-upcoming > div > table > tbody > tr";

/// Within a row: the start time.
pub const TIME_SELECTOR: &'static str = "td:nth-child(1) > small > a > time";

/// Within a row: the link whose text is the contest's name.
pub const NAME_SELECTOR: &'static str = "td:nth-child(2) > small > a";

/// How the page writes a start time, once its offset suffix is removed.
pub const PAGE_TIME_FORMAT: &'static str = "%Y-%m-%d %H:%M:%S";

/// Length of the offset suffix (`+0900`) after each start time on the page.
pub const OFFSET_SUFFIX_LEN: usize = 5;

/// What the page shows in one matched row, before any check: the inner HTML
/// of the first name link, the inner HTML of the first time element, and the
/// name link's `href`.
#[derive(Debug, Clone)]
pub struct ScrapedRow {
    pub name: Option<String>,
    pub time: Option<String>,
    pub href: Option<String>,
}

pub type Cells = (Option<Seq<char>>, Option<Seq<char>>, Option<Seq<char>>);

pub open spec fn scraped_view(r: ScrapedRow) -> Cells {
    (opt_view(r.name), opt_view(r.time), opt_view(r.href))
}

/// What scraper finds on `page`: for each element that the `rows` selector
/// matches, in document order, the cells of `ScrapedRow`; `None` where a
/// selector does not parse. Inner HTML writes attributes in document order
/// (scraper built with its `deterministic` feature).
pub uninterp spec fn scrape_rows(page: Seq<char>, rows: Seq<char>, name: Seq<char>, time: Seq<char>) -> Option<Seq<Cells>>;

/// Relies on scraper's `Selector::parse`, `Html::parse_document`,
/// `Html::select`, `ElementRef::select`, `ElementRef::inner_html` and
/// `ElementRef::attr`. With scraper's `deterministic` feature an element keeps
/// its attributes in document order, so the outcome depends on the four
/// strings alone.
#[verifier::external_body]
fn scrape(page: &str, rows: &str, name: &str, time: &str) -> (r: Option<Vec<ScrapedRow>>)
    ensures
        match r {
            Some(v) => scrape_rows(page@, rows@, name@, time@) == Some(v@.map_values(|x: ScrapedRow| scraped_view(x))),
            None => scrape_rows(page@, rows@, name@, time@) is None,
        },
{
    let (rows, name, time) = (Selector::parse(rows).ok()?, Selector::parse(name).ok()?, Selector::parse(time).ok()?);
    let doc = Html::parse_document(page);
    Some(doc.select(&rows).map(|row| {
        let link = row.select(&name).next();
        ScrapedRow {
            name: link.map(|e| e.inner_html()),
            time: row.select(&time).next().map(|e| e.inner_html()),
            href: link.and_then(|e| e.attr("href")).map(|h| h.to_string()),
        }
    }).collect())
}

/// What the page shows of one contest.
#[derive(Debug, Clone)]
pub struct PageRow {
    pub name: String,
    pub time: String,
    pub path: String,
}

pub type RowView = (Seq<char>, Seq<char>, Seq<char>);

pub open spec fn page_row_views(s: Seq<PageRow>) -> Seq<RowView> {
    s.map_values(|r: PageRow| (r.name@, r.time@, r.path@))
}

pub open spec fn complete(c: Cells) -> bool {
    c.0 is Some && c.1 is Some && c.2 is Some
}

/// The rows of the page: an error where a selector does not parse or a row
/// lacks one of its cells.
pub open spec fn page_rows(page: Seq<char>) -> Result<Seq<RowView>, FetchError> {
    match scrape_rows(page, ROW_SELECTOR@, NAME_SELECTOR@, TIME_SELECTOR@) {
        None => Err(FetchError::BadSelector),
        Some(cells) => if forall|i: int| 0 <= i < cells.len() ==> complete(#[trigger] cells[i]) {
            Ok(cells.map_values(|c: Cells| (c.0->Some_0, c.1->Some_0, c.2->Some_0)))
        } else {
            Err(FetchError::MissingElement)
        },
    }
}

/// The start written in a row: its text without the offset suffix, read as
/// Tokyo wall-clock time.
pub open spec fn row_start(time: Seq<char>) -> Option<i64> {
    if time.len() >= OFFSET_SUFFIX_LEN {
        tokyo_local_parse(time.take(time.len() - OFFSET_SUFFIX_LEN), PAGE_TIME_FORMAT@)
    } else {
        None
    }
}

/// The contest that a row stands for, its start read as `row_start` gives it.
pub open spec fn row_contest(r: RowView) -> ContestView {
    ContestView {
        name: r.0,
        start_time: row_start(r.1)->Some_0 as int,
        url: Some(ATCODER_ORIGIN@ + r.2),
        host: Host::AtCoder,
    }
}

pub open spec fn row_contests(s: Seq<RowView>) -> Seq<ContestView> {
    s.map_values(|r: RowView| row_contest(r))
}

/// What the rows turn into: contests sorted by start time, or an error where
/// a start time does not read.
pub open spec fn rows_outcome(rows: Seq<RowView>) -> Result<Seq<ContestView>, FetchError> {
    if exists|i: int| 0 <= i < rows.len() && (#[trigger] row_start(rows[i].1)) is None {
        Err(FetchError::BadStartTime)
    } else {
        Ok(sort_by_start(row_contests(rows)))
    }
}

/// What the provider's `page` turns into.
pub open spec fn atcoder_outcome(page: Seq<char>) -> Result<Seq<ContestView>, FetchError> {
    match page_rows(page) {
        Err(e) => Err(e),
        Ok(rows) => rows_outcome(rows),
    }
}

/// Turns the page's rows into contests sorted by start time, with links made
/// absolute; fails where a start time does not read.
pub fn contests_from_rows(rows: Vec<PageRow>) -> (r: Result<Vec<Contest>, FetchError>)
    ensures
        match r {
            Ok(v) => rows_outcome(page_row_views(rows@)) == Ok::<Seq<ContestView>, FetchError>(views(v@)),
            Err(e) => rows_outcome(page_row_views(rows@)) == Err::<Seq<ContestView>, FetchError>(e),
        },
{
    let ghost rv = page_row_views(rows@);
    let mut rest = rows;
    let mut out: Vec<Contest> = Vec::new();
    let n: usize = rest.len();
    let mut i: usize = 0;
    while rest.len() > 0
        invariant
            i + rest@.len() == n,
            n == rows@.len(),
            rv == page_row_views(rows@),
            rest@ == rows@.skip(i as int),
            views(out@) == row_contests(rv.take(i as int)),
            forall|k: int| 0 <= k < i ==> (#[trigger] row_start(rv[k].1)) is Some,
        decreases rest@.len(),
    {
        let row = rest.remove(0);
        proof {
            assert(row == rows@[i as int]);
            assert(rv[i as int] == (row.name@, row.time@, row.path@));
            assert(rest@ =~= rows@.skip(i as int + 1));
        }
        let len = row.time.as_str().unicode_len();
        if len < OFFSET_SUFFIX_LEN {
            proof {
                assert(row_start(rv[i as int].1) is None);
            }
            return Err(FetchError::BadStartTime);
        }
        let local = row.time.as_str().substring_char(0, len - OFFSET_SUFFIX_LEN);
        proof {
            assert(local@ =~= row.time@.take(row.time@.len() - OFFSET_SUFFIX_LEN));
        }
        let start = match parse_tokyo_time(local, PAGE_TIME_FORMAT) {
            Some(t) => t,
            None => {
                proof {
                    assert(row_start(rv[i as int].1) is None);
                }
                return Err(FetchError::BadStartTime);
            },
        };
        let mut url = String::from_str(ATCODER_ORIGIN);
        url.append(row.path.as_str());
        let c = Contest::new(row.name, start, Some(url), Host::AtCoder);
        proof {
            assert(c@ == row_contest(rv[i as int]));
            assert(rv.take(i as int + 1) =~= rv.take(i as int).push(rv[i as int]));
            assert(row_contests(rv.take(i as int + 1)) =~= row_contests(rv.take(i as int)).push(c@));
        }
        let ghost before = out@;
        out.push(c);
        proof {
            assert(views(out@) =~= views(before).push(c@));
        }
        i = i + 1;
    }
    proof {
        assert(rv.take(i as int) =~= rv);
    }
    Ok(sort_contests(out))
}

/// Reads the rows of the upcoming-contest table. A row that lacks its name
/// link, its time or the link's target fails the whole page.
pub fn rows_from_page(page: &str) -> (r: Result<Vec<PageRow>, FetchError>)
    ensures
        match r {
            Ok(v) => page_rows(page@) == Ok::<Seq<RowView>, FetchError>(page_row_views(v@)),
            Err(e) => page_rows(page@) == Err::<Seq<RowView>, FetchError>(e),
        },
{
    let found = match scrape(page, ROW_SELECTOR, NAME_SELECTOR, TIME_SELECTOR) {
        Some(v) => v,
        None => {
            return Err(FetchError::BadSelector);
        },
    };
    let ghost cells = found@.map_values(|x: ScrapedRow| scraped_view(x));
    let mut out: Vec<PageRow> = Vec::new();
    let mut i: usize = 0;
    while i < found.len()
        invariant
            i <= found@.len(),
            cells == found@.map_values(|x: ScrapedRow| scraped_view(x)),
            scrape_rows(page@, ROW_SELECTOR@, NAME_SELECTOR@, TIME_SELECTOR@) == Some(cells),
            out@.len() == i,
            forall|k: int| 0 <= k < i ==> complete(#[trigger] cells[k]),
            forall|k: int|
                0 <= k < i ==> (#[trigger] page_row_views(out@)[k]) == (
                    cells[k].0->Some_0,
                    cells[k].1->Some_0,
                    cells[k].2->Some_0,
                ),
        decreases found@.len() - i,
    {
        let row = &found[i];
        proof {
            assert(cells[i as int] == scraped_view(*row));
        }
        match (&row.name, &row.time, &row.href) {
            (Some(name), Some(time), Some(path)) => {
                let ghost before = out@;
                out.push(PageRow { name: name.clone(), time: time.clone(), path: path.clone() });
                proof {
                    assert forall|k: int| 0 <= k < i + 1 implies (#[trigger] page_row_views(out@)[k]) == (
                        cells[k].0->Some_0,
                        cells[k].1->Some_0,
                        cells[k].2->Some_0,
                    ) by {
                        if k < i {
                            assert(out@[k] == before[k]);
                            assert(page_row_views(before)[k] == page_row_views(out@)[k]);
                        }
                    }
                }
            },
            _ => {
                proof {
                    assert(!complete(cells[i as int]));
                }
                return Err(FetchError::MissingElement);
            },
        }
        i = i + 1;
    }
    proof {
        assert(page_row_views(out@) =~= cells.map_values(|c: Cells| (c.0->Some_0, c.1->Some_0, c.2->Some_0)));
    }
    Ok(out)
}

/// Contests of the HTML provider's page, sorted by start time. Every contest
/// comes from that provider and links to a page under its origin.
pub fn atcoder_contests(page: &str) -> (r: Result<Vec<Contest>, FetchError>)
    ensures
        match r {
            Ok(v) => atcoder_outcome(page@) == Ok::<Seq<ContestView>, FetchError>(views(v@)),
            Err(e) => atcoder_outcome(page@) == Err::<Seq<ContestView>, FetchError>(e),
        },
        r is Ok ==> forall|i: int|
            0 <= i < r->Ok_0@.len() ==> {
                &&& (#[trigger] r->Ok_0@[i]).host == Host::AtCoder
                &&& r->Ok_0@[i]@.url is Some
                &&& r->Ok_0@[i]@.url->Some_0.len() >= ATCODER_ORIGIN@.len()
                &&& r->Ok_0@[i]@.url->Some_0.take(ATCODER_ORIGIN@.len() as int) == ATCODER_ORIGIN@
            },
        r is Ok ==> sorted_by_start(views(r->Ok_0@)),
{
    let rows = match rows_from_page(page) {
        Ok(v) => v,
        Err(e) => {
            return Err(e);
        },
    };
    let ghost e = page_row_views(rows@);
    let r = contests_from_rows(rows);
    proof {
        if r is Ok {
            let v = r->Ok_0@;
            let m = row_contests(e);
            lemma_sort_by_start(m);
            assert forall|i: int| 0 <= i < v.len() implies {
                &&& (#[trigger] v[i]).host == Host::AtCoder
                &&& v[i]@.url is Some
                &&& v[i]@.url->Some_0.len() >= ATCODER_ORIGIN@.len()
                &&& v[i]@.url->Some_0.take(ATCODER_ORIGIN@.len() as int) == ATCODER_ORIGIN@
            } by {
                assert(views(v)[i] == v[i]@);
                assert(sort_by_start(m).contains(v[i]@));
                let k = choose|k: int| 0 <= k < m.len() && m[k] == v[i]@;
                assert(m[k] == row_contest(e[k]));
                assert((ATCODER_ORIGIN@ + e[k].2).take(ATCODER_ORIGIN@.len() as int) =~= ATCODER_ORIGIN@);
            }
        }
    }
    r
}

} // verus!
