use crate::error::{is_text_result, Error};
use crate::numbers::{
    parse_int, parse_rating, parsed_int, parsed_rating, push_rating, rating_text,
};
use crate::query::{absolute_address, parsed_url, to_url_in_base, url_of};
use crate::text::{trim, trimmed};
use scraper::{ElementRef, Html, Selector};
use vstd::prelude::*;
use vstd::string::StringExecFns;

verus! {

/// What a table cell of a page holds: its text nodes in document order, and
/// for each link inside it the link's address, if it has one.
pub struct RawCell {
    pub text: Vec<String>,
    pub links: Vec<Option<String>>,
}

/// The mathematical value of a `RawCell`.
pub struct CellView {
    pub text: Seq<Seq<char>>,
    pub links: Seq<Option<Seq<char>>>,
}

/// One subtitle package of a results page.
#[derive(Debug, Clone)]
pub struct SubsEntry {
    pub name: String,
    pub flag: String,
    pub cd: String,
    pub sent: String,
    /// The absolute address of the package's detail page.
    pub download_url: String,
    /// The rating, in thousandths.
    pub rating: i64,
    pub edits: i32,
    /// The rating of the film, in thousandths.
    pub imdb_rating: i64,
    pub uploaded_by: String,
}

/// The mathematical value of a `SubsEntry`.
pub struct EntryView {
    pub name: Seq<char>,
    pub flag: Seq<char>,
    pub cd: Seq<char>,
    pub sent: Seq<char>,
    pub download_url: Seq<char>,
    pub rating: int,
    pub edits: int,
    pub imdb_rating: int,
    pub uploaded_by: Seq<char>,
}

/// The value of an attribute that may be missing.
pub open spec fn attr_view(value: Option<String>) -> Option<Seq<char>> {
    match value {
        Some(text) => Some(text@),
        None => None,
    }
}

/// The values of a sequence of texts.
pub open spec fn texts_view(texts: Seq<String>) -> Seq<Seq<char>> {
    texts.map_values(|t: String| t@)
}

/// The values of a sequence of attributes.
pub open spec fn attrs_view(values: Seq<Option<String>>) -> Seq<Option<Seq<char>>> {
    values.map_values(|v: Option<String>| attr_view(v))
}

impl View for RawCell {
    type V = CellView;

    open spec fn view(&self) -> CellView {
        CellView { text: texts_view(self.text@), links: attrs_view(self.links@) }
    }
}

impl View for SubsEntry {
    type V = EntryView;

    open spec fn view(&self) -> EntryView {
        EntryView {
            name: self.name@,
            flag: self.flag@,
            cd: self.cd@,
            sent: self.sent@,
            download_url: self.download_url@,
            rating: self.rating as int,
            edits: self.edits as int,
            imdb_rating: self.imdb_rating as int,
            uploaded_by: self.uploaded_by@,
        }
    }
}

/// The cells of a row.
pub open spec fn row_view(row: Vec<RawCell>) -> Seq<CellView> {
    row@.map_values(|c: RawCell| c@)
}

/// The rows of a table.
pub open spec fn rows_view(rows: Vec<Vec<RawCell>>) -> Seq<Seq<CellView>> {
    rows@.map_values(|r: Vec<RawCell>| row_view(r))
}

/// The tables of a page.
pub open spec fn tables_view(tables: Vec<Vec<Vec<RawCell>>>) -> Seq<Seq<Seq<CellView>>> {
    tables@.map_values(|t: Vec<Vec<RawCell>>| rows_view(t))
}

/// The values of a sequence of entries.
pub open spec fn entries_view(entries: Seq<SubsEntry>) -> Seq<EntryView> {
    entries.map_values(|e: SubsEntry| e@)
}

/// The tables that a selection found, if its selectors parsed.
pub open spec fn found_tables(found: Option<Vec<Vec<Vec<RawCell>>>>) -> Option<
    Seq<Seq<Seq<CellView>>>,
> {
    match found {
        Some(tables) => Some(tables_view(tables)),
        None => None,
    }
}

/// The attributes that a selection found, if its selector parsed.
pub open spec fn found_attrs(found: Option<Vec<Option<String>>>) -> Option<Seq<Option<Seq<char>>>> {
    match found {
        Some(values) => Some(attrs_view(values@)),
        None => None,
    }
}

/// What the elements of a page hold that a chain of selectors reaches, each
/// selection in the order in which it yields its elements: for
/// each element that `table` selects in the page, for each of its
/// descendants that `row` selects, for each of that row's descendants that
/// `cell` selects: the cell's text nodes, and the attribute `attr` of each
/// of the cell's descendants that `link` selects. `None` where one of the
/// four selectors does not parse.
pub uninterp spec fn scraped_tables(
    page: Seq<char>,
    table: Seq<char>,
    row: Seq<char>,
    cell: Seq<char>,
    link: Seq<char>,
    attr: Seq<char>,
) -> Option<Seq<Seq<Seq<CellView>>>>;

/// The attribute `attr` of each element that `selector` selects in the
/// page, in the order in which the selection yields them; `None` where the
/// selector does not parse.
pub uninterp spec fn attribute_values(page: Seq<char>, selector: Seq<char>, attr: Seq<char>) -> Option<
    Seq<Option<Seq<char>>>,
>;

/// Parses the page with `Html::parse_document` of scraper and the four
/// selectors with `Selector::parse`, walks the matches of `Html::select` and
/// `ElementRef::select`, and copies out of each cell what `ElementRef::text`
/// and `ElementRef::attr` give. The contract only names the result: it is a
/// function of the six texts.
#[verifier::external_body]
fn scrape_tables(page: &str, table: &str, row: &str, cell: &str, link: &str, attr: &str) -> (r:
    Option<Vec<Vec<Vec<RawCell>>>>)
    ensures
        found_tables(r) == scraped_tables(page@, table@, row@, cell@, link@, attr@),
{
    let html = Html::parse_document(page);
    let (t, r) = (Selector::parse(table).ok()?, Selector::parse(row).ok()?);
    let (c, a) = (Selector::parse(cell).ok()?, Selector::parse(link).ok()?);
    let cells = |td: ElementRef| RawCell {
        text: td.text().map(String::from).collect(),
        links: td.select(&a).map(|l| l.attr(attr).map(String::from)).collect(),
    };
    Some(
        html.select(&t).map(
            |tab| tab.select(&r).map(|tr| tr.select(&c).map(cells).collect()).collect(),
        ).collect(),
    )
}

/// Parses the page with `Html::parse_document` of scraper and the selector
/// with `Selector::parse`, and copies out what `ElementRef::attr` gives for
/// each match of `Html::select`. The contract only names the result.
#[verifier::external_body]
fn select_attributes(page: &str, selector: &str, attr: &str) -> (r: Option<Vec<Option<String>>>)
    ensures
        found_attrs(r) == attribute_values(page@, selector@, attr@),
{
    let html = Html::parse_document(page);
    let found = Selector::parse(selector).ok()?;
    Some(html.select(&found).map(|e| e.attr(attr).map(String::from)).collect())
}

/// The texts in order, with one space between neighbours.
pub open spec fn joined(texts: Seq<Seq<char>>) -> Seq<char>
    decreases texts.len(),
{
    if texts.len() == 0 {
        Seq::empty()
    } else if texts.len() == 1 {
        texts[0]
    } else {
        joined(texts.drop_last()) + " "@ + texts.last()
    }
}

/// What a cell reads as: its text nodes joined by spaces, without the
/// whitespace at both ends.
pub open spec fn cell_value(cell: CellView) -> Seq<char> {
    trimmed(joined(cell.text))
}

/// The address of the first link of a cell.
pub open spec fn first_link(cell: CellView) -> Option<Seq<char>> {
    if cell.links.len() > 0 {
        cell.links[0]
    } else {
        None
    }
}

/// The URL of the first link of a cell.
pub open spec fn cell_url(cell: CellView) -> Option<Seq<char>> {
    match first_link(cell) {
        Some(href) => parsed_url(absolute_address(href)),
        None => None,
    }
}

/// The entry that a row of nine or more cells stands for: name, flag, disc
/// label, download count, link, rating, edit count, film rating, uploader.
/// `None` where a cell is missing, the link is missing or no URL, or one of
/// the three numbers does not parse.
pub open spec fn row_entry(cells: Seq<CellView>) -> Option<EntryView> {
    if cells.len() < 9 {
        None
    } else {
        let url = cell_url(cells[4]);
        let rating = parsed_rating(cell_value(cells[5]));
        let edits = parsed_int(cell_value(cells[6]));
        let imdb_rating = parsed_rating(cell_value(cells[7]));
        if url is Some && rating is Some && edits is Some && imdb_rating is Some {
            Some(
                EntryView {
                    name: cell_value(cells[0]),
                    flag: cell_value(cells[1]),
                    cd: cell_value(cells[2]),
                    sent: cell_value(cells[3]),
                    download_url: url->Some_0,
                    rating: rating->Some_0,
                    edits: edits->Some_0,
                    imdb_rating: imdb_rating->Some_0,
                    uploaded_by: cell_value(cells[8]),
                },
            )
        } else {
            None
        }
    }
}

/// The entries of the rows that parse, in the order of the rows.
pub open spec fn parsed_rows(rows: Seq<Seq<CellView>>) -> Seq<EntryView>
    decreases rows.len(),
{
    if rows.len() == 0 {
        Seq::empty()
    } else {
        match row_entry(rows.last()) {
            Some(entry) => parsed_rows(rows.drop_last()).push(entry),
            None => parsed_rows(rows.drop_last()),
        }
    }
}

/// Whether `p` is the first place of `sorted` whose rating is at most
/// `rating`, or the length of `sorted` where every rating is higher.
pub open spec fn is_place(sorted: Seq<EntryView>, rating: int, p: int) -> bool {
    &&& 0 <= p <= sorted.len()
    &&& forall|j: int| 0 <= j < p ==> (#[trigger] sorted[j]).rating > rating
    &&& p < sorted.len() ==> sorted[p].rating <= rating
}

/// The first place of `sorted` whose rating is at most `rating`.
pub open spec fn place_of(sorted: Seq<EntryView>, rating: int) -> int {
    choose|p: int| is_place(sorted, rating, p)
}

/// The entries by falling rating; entries of one rating keep their order.
/// Each entry, from the last to the first, goes in front of the entries
/// after it that are rated no higher.
pub open spec fn stable_desc(entries: Seq<EntryView>) -> Seq<EntryView>
    decreases entries.len(),
{
    if entries.len() == 0 {
        Seq::empty()
    } else {
        let rest = stable_desc(entries.skip(1));
        rest.insert(place_of(rest, entries[0].rating), entries[0])
    }
}

/// The `top_n` best entries by falling rating, or all of them where there
/// are fewer.
pub open spec fn ranked(entries: Seq<EntryView>, top_n: nat) -> Seq<EntryView> {
    let sorted = stable_desc(entries);
    if top_n < sorted.len() {
        sorted.take(top_n as int)
    } else {
        sorted
    }
}

/// The entries of `entries` that are rated `rating`, in their order.
pub open spec fn with_rating(entries: Seq<EntryView>, rating: int) -> Seq<EntryView>
    decreases entries.len(),
{
    if entries.len() == 0 {
        Seq::empty()
    } else if entries[0].rating == rating {
        seq![entries[0]] + with_rating(entries.skip(1), rating)
    } else {
        with_rating(entries.skip(1), rating)
    }
}

/// Every sequence has a first place whose rating is at most `rating`.
pub proof fn lemma_place_exists(sorted: Seq<EntryView>, rating: int)
    ensures
        is_place(sorted, rating, place_of(sorted, rating)),
    decreases sorted.len(),
{
    if sorted.len() == 0 || sorted[0].rating <= rating {
        assert(is_place(sorted, rating, 0));
    } else {
        let tail = sorted.skip(1);
        lemma_place_exists(tail, rating);
        let q = place_of(tail, rating);
        assert forall|j: int| 0 <= j < q + 1 implies (#[trigger] sorted[j]).rating > rating by {
            if j > 0 {
                assert(sorted[j] == tail[j - 1]);
            }
        }
        if q + 1 < sorted.len() {
            assert(sorted[q + 1] == tail[q]);
        }
        assert(is_place(sorted, rating, q + 1));
    }
}

/// Ranking loses and adds nothing, and the ratings never rise from one
/// entry of the result to the next.
pub proof fn lemma_stable_desc_is_falling(entries: Seq<EntryView>)
    ensures
        stable_desc(entries).len() == entries.len(),
        forall|i: int, j: int|
            0 <= i <= j < entries.len() ==> (#[trigger] stable_desc(entries)[i]).rating >= (
            #[trigger] stable_desc(entries)[j]).rating,
    decreases entries.len(),
{
    if entries.len() > 0 {
        let rest = stable_desc(entries.skip(1));
        let first = entries[0];
        let p = place_of(rest, first.rating);
        lemma_stable_desc_is_falling(entries.skip(1));
        lemma_place_exists(rest, first.rating);
        let sorted = rest.insert(p, first);
        assert(sorted == stable_desc(entries));
        assert forall|i: int, j: int| 0 <= i <= j < entries.len() implies (#[trigger] sorted[i]).rating
            >= (#[trigger] sorted[j]).rating by {
            let a = if i < p {
                rest[i]
            } else if i == p {
                first
            } else {
                rest[i - 1]
            };
            let b = if j < p {
                rest[j]
            } else if j == p {
                first
            } else {
                rest[j - 1]
            };
            assert(sorted[i] == a);
            assert(sorted[j] == b);
            if j > p {
                assert(rest[p].rating >= rest[j - 1].rating);
            }
        }
    }
}

/// Putting an entry in front of the first entry that is rated no higher
/// puts it in front of the entries of its own rating, and leaves the
/// entries of every other rating as they were.
pub proof fn lemma_insert_keeps_order(sorted: Seq<EntryView>, entry: EntryView, p: int, rating: int)
    requires
        0 <= p <= sorted.len(),
        forall|j: int| 0 <= j < p ==> (#[trigger] sorted[j]).rating > entry.rating,
    ensures
        with_rating(sorted.insert(p, entry), rating) == if entry.rating == rating {
            seq![entry] + with_rating(sorted, rating)
        } else {
            with_rating(sorted, rating)
        },
    decreases p,
{
    let grown = sorted.insert(p, entry);
    if p == 0 {
        assert(grown[0] == entry);
        assert(grown.skip(1) =~= sorted);
    } else {
        let tail = sorted.skip(1);
        assert(grown[0] == sorted[0]);
        assert(grown.skip(1) =~= tail.insert(p - 1, entry));
        assert forall|j: int| 0 <= j < p - 1 implies (#[trigger] tail[j]).rating > entry.rating by {
            assert(tail[j] == sorted[j + 1]);
        }
        lemma_insert_keeps_order(tail, entry, p - 1, rating);
        assert(sorted[0].rating > entry.rating);
    }
}

/// Ranking is stable: the entries of one rating come out in the order in
/// which they went in, and no others of that rating come out.
pub proof fn lemma_stable_desc_keeps_order(entries: Seq<EntryView>, rating: int)
    ensures
        with_rating(stable_desc(entries), rating) == with_rating(entries, rating),
    decreases entries.len(),
{
    if entries.len() > 0 {
        let rest = stable_desc(entries.skip(1));
        let first = entries[0];
        lemma_stable_desc_keeps_order(entries.skip(1), rating);
        lemma_place_exists(rest, first.rating);
        lemma_insert_keeps_order(rest, first, place_of(rest, first.rating), rating);
    }
}

/// The ranked entries are the first `top_n` of the stable ranking, or all
/// of it: as many as there are entries, at most `top_n`, with ratings that
/// never rise.
pub proof fn lemma_ranked_is_falling(entries: Seq<EntryView>, top_n: nat)
    ensures
        ranked(entries, top_n).len() == if top_n < entries.len() {
            top_n
        } else {
            entries.len()
        },
        forall|i: int, j: int|
            0 <= i <= j < ranked(entries, top_n).len() ==> (#[trigger] ranked(
                entries,
                top_n,
            )[i]).rating >= (#[trigger] ranked(entries, top_n)[j]).rating,
        forall|i: int|
            0 <= i < ranked(entries, top_n).len() ==> #[trigger] ranked(entries, top_n)[i]
                == stable_desc(entries)[i],
{
    lemma_stable_desc_is_falling(entries);
}

/// The rows of one part of a table parse as they do alone.
pub proof fn lemma_parsed_rows_concat(before: Seq<Seq<CellView>>, after: Seq<Seq<CellView>>)
    ensures
        parsed_rows(before + after) == parsed_rows(before) + parsed_rows(after),
    decreases after.len(),
{
    if after.len() == 0 {
        assert(before + after =~= before);
        assert(parsed_rows(before) + parsed_rows(after) =~= parsed_rows(before));
    } else {
        let whole = before + after;
        assert(whole.drop_last() =~= before + after.drop_last());
        assert(whole.last() == after.last());
        lemma_parsed_rows_concat(before, after.drop_last());
        assert(parsed_rows(whole) =~= parsed_rows(before) + parsed_rows(after));
    }
}

/// A row that does not parse is left out, and the rows before and after it
/// parse as if it were not there.
pub proof fn lemma_unparsed_row_is_left_out(
    before: Seq<Seq<CellView>>,
    row: Seq<CellView>,
    after: Seq<Seq<CellView>>,
)
    requires
        row_entry(row) is None,
    ensures
        parsed_rows(before.push(row) + after) == parsed_rows(before + after),
{
    lemma_parsed_rows_concat(before.push(row), after);
    lemma_parsed_rows_concat(before, after);
    assert(before.push(row).drop_last() =~= before);
}

/// A row with fewer than nine cells does not parse.
pub proof fn lemma_short_row_does_not_parse(row: Seq<CellView>)
    requires
        row.len() < 9,
    ensures
        row_entry(row) is None,
{
}

/// The rows of a table without its header row.
pub open spec fn data_rows(rows: Seq<Seq<CellView>>) -> Seq<Seq<CellView>> {
    if rows.len() > 0 {
        rows.skip(1)
    } else {
        rows
    }
}

/// What `top_rated_subs` returns for a page: the ranked rows of the first
/// results table, or `NoResultsTable` where the page has none.
pub open spec fn top_rated(page: Seq<char>, top_n: nat) -> Result<Seq<EntryView>, Error> {
    match scraped_tables(page, "table#search_results"@, "tr"@, "td"@, "a"@, "href"@) {
        Some(tables) => if tables.len() > 0 {
            Ok(ranked(parsed_rows(data_rows(tables[0])), top_n))
        } else {
            Err(Error::NoResultsTable)
        },
        None => Err(Error::NoResultsTable),
    }
}

/// The URL of the first of the rows of a detail page, each given by its
/// link, if it has one: `NoDownloadLink` where there is no row or the first
/// has no link.
pub open spec fn first_row_address(links: Seq<Option<Seq<char>>>) -> Result<Seq<char>, Error> {
    if links.len() > 0 && links[0] is Some {
        url_of(absolute_address(links[0]->Some_0))
    } else {
        Err(Error::NoDownloadLink)
    }
}

/// What `sub_download_url` returns for a page.
pub open spec fn download_address(page: Seq<char>) -> Result<Seq<char>, Error> {
    match attribute_values(page, "tr"@, "href"@) {
        Some(links) => first_row_address(links),
        None => Err(Error::NoDownloadLink),
    }
}

fn join_texts(texts: &Vec<String>) -> (whole: String)
    ensures
        whole@ == joined(texts_view(texts@)),
{
    let ghost views = texts_view(texts@);
    let mut whole: String = String::new();
    let mut i: usize = 0;
    while i < texts.len()
        invariant
            i <= texts@.len(),
            views == texts_view(texts@),
            whole@ == joined(views.take(i as int)),
        decreases texts@.len() - i,
    {
        proof {
            assert(views.take(i + 1).drop_last() =~= views.take(i as int));
            assert(views.take(i + 1).last() == texts@[i as int]@);
        }
        if i > 0 {
            whole.append(" ");
        }
        whole.append(texts[i].as_str());
        proof {
            if i == 0 {
                assert(whole@ =~= texts@[0]@);
            }
        }
        i += 1;
    }
    assert(views.take(texts@.len() as int) =~= views);
    whole
}

fn cell_text(cell: &RawCell) -> (value: String)
    ensures
        value@ == cell_value(cell@),
{
    let whole: String = join_texts(&cell.text);
    String::from_str(trim(whole.as_str()))
}

/// How an entry is shown where one is to be chosen: its address and its
/// rating.
pub open spec fn label_of(entry: EntryView) -> Seq<char> {
    "["@ + entry.download_url + " (rating: "@ + rating_text(entry.rating) + ")]"@
}

impl SubsEntry {
    /// The text that stands for this entry where one is to be chosen.
    pub fn label(&self) -> (text: String)
        ensures
            text@ == label_of(self@),
    {
        let mut text: String = String::from_str("[");
        text.append(self.download_url.as_str());
        text.append(" (rating: ");
        push_rating(&mut text, self.rating);
        text.append(")]");
        text
    }

    /// Reads one row of the results table.
    pub fn from_table_row_element(row: &Vec<RawCell>) -> (r: Result<SubsEntry, Error>)
        ensures
            match (r, row_entry(row_view(*row))) {
                (Ok(entry), Some(expected)) => entry@ == expected,
                (Err(e), None) => e == Error::RowParseFailure,
                _ => false,
            },
    {
        if row.len() < 9 {
            return Err(Error::RowParseFailure);
        }
        let ghost cells = row_view(*row);
        assert(forall|i: int| 0 <= i < 9 ==> cells[i] == row@[i]@);
        let link_cell: &RawCell = &row[4];
        if link_cell.links.len() == 0 {
            return Err(Error::RowParseFailure);
        }
        let download_url: String = match &link_cell.links[0] {
            None => {
                return Err(Error::RowParseFailure);
            },
            Some(href) => match to_url_in_base(href.as_str()) {
                Ok(url) => url,
                Err(_) => {
                    return Err(Error::RowParseFailure);
                },
            },
        };
        let rating_text: String = cell_text(&row[5]);
        let edits_text: String = cell_text(&row[6]);
        let imdb_text: String = cell_text(&row[7]);
        let rating: i64 = match parse_rating(rating_text.as_str()) {
            Some(v) => v,
            None => {
                return Err(Error::RowParseFailure);
            },
        };
        let edits: i32 = match parse_int(edits_text.as_str()) {
            Some(v) => v,
            None => {
                return Err(Error::RowParseFailure);
            },
        };
        let imdb_rating: i64 = match parse_rating(imdb_text.as_str()) {
            Some(v) => v,
            None => {
                return Err(Error::RowParseFailure);
            },
        };
        Ok(
            SubsEntry {
                name: cell_text(&row[0]),
                flag: cell_text(&row[1]),
                cd: cell_text(&row[2]),
                sent: cell_text(&row[3]),
                download_url,
                rating,
                edits,
                imdb_rating,
                uploaded_by: cell_text(&row[8]),
            },
        )
    }
}

/// Orders the entries by falling rating, entries of one rating in the order
/// in which they came, and keeps the first `top_n`.
pub fn rank(entries: Vec<SubsEntry>, top_n: usize) -> (best: Vec<SubsEntry>)
    ensures
        entries_view(best@) == ranked(entries_view(entries@), top_n as nat),
{
    let ghost all = entries_view(entries@);
    let mut rest: Vec<SubsEntry> = entries;
    let mut best: Vec<SubsEntry> = Vec::new();
    assert(all.skip(all.len() as int) =~= Seq::<EntryView>::empty());
    assert(entries_view(best@) =~= Seq::<EntryView>::empty());
    while rest.len() > 0
        invariant
            rest@.len() <= all.len(),
            entries_view(rest@) == all.take(rest@.len() as int),
            entries_view(best@) == stable_desc(all.skip(rest@.len() as int)),
        decreases rest@.len(),
    {
        let ghost k: int = rest@.len() - 1;
        let ghost before = entries_view(best@);
        let ghost rest_before = rest@;
        let entry: SubsEntry = rest.pop().unwrap();
        proof {
            assert(entries_view(rest_before)[k] == entry@);
            assert(all.take(k + 1)[k] == all[k]);
            assert(entries_view(rest@) =~= all.take(k));
            assert(all.skip(k).skip(1) =~= all.skip(k + 1));
            assert(all.skip(k)[0] == entry@);
        }
        let mut p: usize = 0;
        while p < best.len() && best[p].rating > entry.rating
            invariant
                p <= best@.len(),
                before == entries_view(best@),
                forall|j: int| 0 <= j < p ==> (#[trigger] before[j]).rating > entry@.rating,
            decreases best@.len() - p,
        {
            p += 1;
        }
        proof {
            assert(is_place(before, entry@.rating, p as int));
            let q = place_of(before, entry@.rating);
            assert(is_place(before, entry@.rating, q));
            if q < p {
                assert(before[q].rating > entry@.rating);
            }
            if p < q {
                assert(before[p as int].rating > entry@.rating);
            }
            assert(q == p);
        }
        best.insert(p, entry);
        assert(entries_view(best@) =~= before.insert(p as int, entry@));
    }
    assert(all.skip(0) =~= all);
    let ghost sorted = entries_view(best@);
    best.truncate(top_n);
    assert(entries_view(best@) =~= ranked(all, top_n as nat));
    best
}

/// Whether `r` holds the entries or the error that `expected` gives.
pub open spec fn is_entries_result(
    r: Result<Vec<SubsEntry>, Error>,
    expected: Result<Seq<EntryView>, Error>,
) -> bool {
    match (r, expected) {
        (Ok(entries), Ok(wanted)) => entries_view(entries@) == wanted,
        (Err(e), Err(wanted)) => e == wanted,
        _ => false,
    }
}

/// Reads every row of a table but the header row, and drops the rows that
/// do not parse.
pub fn parse_rows(rows: &Vec<Vec<RawCell>>) -> (entries: Vec<SubsEntry>)
    ensures
        entries_view(entries@) == parsed_rows(data_rows(rows_view(*rows))),
{
    let ghost data = data_rows(rows_view(*rows));
    let mut entries: Vec<SubsEntry> = Vec::new();
    assert(entries_view(entries@) =~= parsed_rows(data.take(0)));
    let mut i: usize = 1;
    while i < rows.len()
        invariant
            1 <= i,
            i <= rows@.len() || rows@.len() == 0,
            data == data_rows(rows_view(*rows)),
            rows@.len() > 0 ==> entries_view(entries@) == parsed_rows(data.take(i - 1)),
            rows@.len() == 0 ==> entries_view(entries@) == parsed_rows(data),
        decreases rows@.len() - i,
    {
        let ghost before = entries_view(entries@);
        proof {
            assert(data.take(i as int).drop_last() =~= data.take(i - 1));
            assert(data.take(i as int).last() == row_view(rows@[i as int]));
        }
        match SubsEntry::from_table_row_element(&rows[i]) {
            Ok(entry) => {
                entries.push(entry);
                assert(entries_view(entries@) =~= before.push(entry@));
            },
            Err(_) => {},
        }
        i += 1;
    }
    proof {
        if rows@.len() > 0 {
            assert(data.take(rows@.len() - 1) =~= data);
        }
    }
    entries
}

/// The best-rated subtitle packages that a results page lists: the rows of
/// its first results table that parse, by falling rating, at most `top_n`.
pub fn top_rated_subs(page: String, top_n: usize) -> (r: Result<Vec<SubsEntry>, Error>)
    ensures
        is_entries_result(r, top_rated(page@, top_n as nat)),
{
    match scrape_tables(page.as_str(), "table#search_results", "tr", "td", "a", "href") {
        None => Err(Error::NoResultsTable),
        Some(tables) => {
            if tables.len() == 0 {
                Err(Error::NoResultsTable)
            } else {
                assert(tables_view(tables)[0] == rows_view(tables@[0]));
                Ok(rank(parse_rows(&tables[0]), top_n))
            }
        },
    }
}

/// The address that the first row of a detail page links to, from the
/// links of its rows.
pub fn first_row_url(links: &Vec<Option<String>>) -> (r: Result<String, Error>)
    ensures
        is_text_result(r, first_row_address(attrs_view(links@))),
{
    if links.len() == 0 {
        return Err(Error::NoDownloadLink);
    }
    assert(attrs_view(links@)[0] == attr_view(links@[0]));
    match &links[0] {
        None => Err(Error::NoDownloadLink),
        Some(href) => to_url_in_base(href.as_str()),
    }
}

/// The address of the archive that a detail page offers: the link of the
/// first row-like element of the page.
pub fn sub_download_url(page: String) -> (r: Result<String, Error>)
    ensures
        is_text_result(r, download_address(page@)),
{
    match select_attributes(page.as_str(), "tr", "href") {
        None => Err(Error::NoDownloadLink),
        Some(links) => first_row_url(&links),
    }
}

} // verus!
