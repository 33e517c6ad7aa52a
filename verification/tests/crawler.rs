use subfinder::crawler::{
    first_row_url, parse_rows, rank, sub_download_url, top_rated_subs, RawCell, SubsEntry,
};
use subfinder::error::Error;

fn row(name: &str, link: &str, rating: &str) -> String {
    format!(
        "<tr><td>{name}</td><td>en</td><td>1CD</td><td>10x</td><td><a href=\"{link}\">get</a></td>\
         <td>{rating}</td><td>3</td><td>7.1</td><td>alice</td></tr>"
    )
}

fn page(rows: &[String]) -> String {
    format!(
        "<html><body><table id=\"other\"><tr><td>x</td></tr></table>\
         <table id=\"search_results\"><tr><th>head</th></tr>{}</table></body></html>",
        rows.concat()
    )
}

fn cell(text: &[&str], links: &[Option<&str>]) -> RawCell {
    RawCell {
        text: text.iter().map(|t| t.to_string()).collect(),
        links: links.iter().map(|l| l.map(|t| t.to_string())).collect(),
    }
}

fn cells(link: RawCell, rating: &str, edits: &str, imdb: &str) -> Vec<RawCell> {
    vec![
        cell(&[" The", "Film "], &[]),
        cell(&["en"], &[]),
        cell(&["1CD"], &[]),
        cell(&["10x"], &[]),
        link,
        cell(&[rating], &[]),
        cell(&[edits], &[]),
        cell(&[imdb], &[]),
        cell(&["alice"], &[]),
    ]
}

fn entry(name: &str, rating: i64) -> SubsEntry {
    SubsEntry {
        name: name.to_string(),
        flag: String::new(),
        cd: String::new(),
        sent: String::new(),
        download_url: format!("https://www.opensubtitles.org/{name}"),
        rating,
        edits: 0,
        imdb_rating: 0,
        uploaded_by: String::new(),
    }
}

fn names(entries: &[SubsEntry]) -> Vec<String> {
    entries.iter().map(|e| e.name.clone()).collect()
}

#[test]
fn best_two_of_three_keep_their_order() {
    let html = page(&[row("first", "/subtitles/1", "9.5"), row("second", "/subtitles/2", "7.0"), row(
        "third",
        "/subtitles/3",
        "9.5",
    )]);
    let best = top_rated_subs(html, 2).unwrap();
    assert_eq!(names(&best), vec!["first", "third"]);
    assert_eq!(best[0].rating, 9500);
    assert_eq!(best[1].rating, 9500);
    assert_eq!(best[0].download_url, "https://www.opensubtitles.org/subtitles/1");
    assert_eq!(best[1].download_url, "https://www.opensubtitles.org/subtitles/3");
}

#[test]
fn every_field_of_a_row_is_read() {
    let html = page(&[
        "<tr><td> The <b>Film</b> </td><td>en</td><td>1CD</td><td>10x</td>\
         <td><a>none</a><a href=\"https://www.opensubtitles.org/subtitles/9\">get</a></td>\
         <td> 8.25 </td><td> -4 </td><td>6</td><td>bob</td><td>more</td></tr>"
            .to_string(),
        "<tr><td>n</td><td>f</td><td>c</td><td>s</td><td><a href=\"/subtitles/9\">get</a></td>\
         <td>8.25</td><td>-4</td><td>6</td><td>bob</td></tr>"
            .to_string(),
    ]);
    let best = top_rated_subs(html, 5).unwrap();
    assert_eq!(best.len(), 1);
    let e = &best[0];
    assert_eq!(e.name, "n");
    assert_eq!(e.flag, "f");
    assert_eq!(e.cd, "c");
    assert_eq!(e.sent, "s");
    assert_eq!(e.download_url, "https://www.opensubtitles.org/subtitles/9");
    assert_eq!(e.rating, 8250);
    assert_eq!(e.edits, -4);
    assert_eq!(e.imdb_rating, 6000);
    assert_eq!(e.uploaded_by, "bob");
}

#[test]
fn row_without_rating_cell_is_left_out() {
    let short = "<tr><td>broken</td><td>en</td><td>1CD</td><td>10x</td>\
                 <td><a href=\"/subtitles/5\">get</a></td><td>3</td><td>7.1</td><td>alice</td></tr>"
        .to_string();
    let html = page(&[row("first", "/subtitles/1", "6"), short, row("last", "/subtitles/2", "8")]);
    let best = top_rated_subs(html, 10).unwrap();
    assert_eq!(names(&best), vec!["last", "first"]);
}

#[test]
fn row_with_a_rating_that_is_no_number_is_left_out() {
    let html = page(&[row("first", "/subtitles/1", "good"), row("last", "/subtitles/2", "8")]);
    assert_eq!(names(&top_rated_subs(html, 10).unwrap()), vec!["last"]);
}

#[test]
fn header_row_is_skipped() {
    let html = "<table id=\"search_results\">".to_string() + &row("head", "/h", "10") + &row(
        "data",
        "/d",
        "1",
    ) + "</table>";
    assert_eq!(names(&top_rated_subs(html, 10).unwrap()), vec!["data"]);
}

#[test]
fn fewer_rows_than_asked_for_are_all_kept() {
    let html = page(&[row("a", "/a", "1"), row("b", "/b", "2")]);
    assert_eq!(names(&top_rated_subs(html, 7).unwrap()), vec!["b", "a"]);
    let html = page(&[]);
    assert_eq!(top_rated_subs(html, 7).unwrap().len(), 0);
}

#[test]
fn page_without_results_table() {
    let html = "<html><body><table id=\"other\"><tr><td>x</td></tr></table></body></html>";
    assert!(matches!(top_rated_subs(html.to_string(), 3), Err(Error::NoResultsTable)));
    assert!(matches!(top_rated_subs(String::new(), 3), Err(Error::NoResultsTable)));
}

#[test]
fn row_from_cells() {
    let row = cells(cell(&["get"], &[Some("/subtitles/3"), Some("/other")]), " 9.5", "12 ", "7");
    let e = SubsEntry::from_table_row_element(&row).unwrap();
    assert_eq!(e.name, "The Film");
    assert_eq!(e.download_url, "https://www.opensubtitles.org/subtitles/3");
    assert_eq!(e.rating, 9500);
    assert_eq!(e.edits, 12);
    assert_eq!(e.imdb_rating, 7000);
    assert_eq!(e.uploaded_by, "alice");
}

#[test]
fn row_that_does_not_parse() {
    let no_link = cells(cell(&["get"], &[]), "9.5", "12", "7");
    let no_href = cells(cell(&["get"], &[None, Some("/x")]), "9.5", "12", "7");
    let bad_url = cells(cell(&["get"], &[Some(":99999999/x")]), "9.5", "12", "7");
    let bad_edits = cells(cell(&["get"], &[Some("/x")]), "9.5", "1.5", "7");
    let bad_imdb = cells(cell(&["get"], &[Some("/x")]), "9.5", "12", "");
    let mut short = cells(cell(&["get"], &[Some("/x")]), "9.5", "12", "7");
    short.pop();
    for row in [no_link, no_href, bad_url, bad_edits, bad_imdb, short] {
        assert!(matches!(SubsEntry::from_table_row_element(&row), Err(Error::RowParseFailure)));
    }
}

#[test]
fn ranking_is_stable_and_falling() {
    let entries =
        vec![entry("a", 7000), entry("b", 9500), entry("c", 7000), entry("d", 9500), entry("e", 100)];
    assert_eq!(names(&rank(entries.clone(), 10)), vec!["b", "d", "a", "c", "e"]);
    assert_eq!(names(&rank(entries.clone(), 3)), vec!["b", "d", "a"]);
    assert_eq!(names(&rank(entries.clone(), 1)), vec!["b"]);
    assert_eq!(rank(entries, 0).len(), 0);
    assert_eq!(rank(Vec::new(), 4).len(), 0);
}

#[test]
fn download_address_of_a_detail_page() {
    let html = "<table><tr href=\"/download/sub/7\"><td>x</td></tr><tr href=\"/no\"></tr></table>";
    assert_eq!(
        sub_download_url(html.to_string()),
        Ok("https://www.opensubtitles.org/download/sub/7".to_string())
    );
}

#[test]
fn detail_page_without_a_link() {
    let no_row = "<html><body><p>nothing</p></body></html>";
    let no_href = "<table><tr><td>x</td></tr><tr href=\"/late\"></tr></table>";
    assert_eq!(sub_download_url(no_row.to_string()), Err(Error::NoDownloadLink));
    assert_eq!(sub_download_url(no_href.to_string()), Err(Error::NoDownloadLink));
}

#[test]
fn detail_page_with_a_link_that_is_no_url() {
    let html = "<table><tr href=\":99999999/x\"><td>x</td></tr></table>";
    assert_eq!(sub_download_url(html.to_string()), Err(Error::InvalidUrl));
}

#[test]
fn label_shows_address_and_rating() {
    assert_eq!(entry("a", 9500).label(), "[https://www.opensubtitles.org/a (rating: 9.5)]");
    assert_eq!(entry("b", 7000).label(), "[https://www.opensubtitles.org/b (rating: 7)]");
    assert_eq!(entry("c", 8250).label(), "[https://www.opensubtitles.org/c (rating: 8.25)]");
    assert_eq!(entry("d", -1005).label(), "[https://www.opensubtitles.org/d (rating: -1.005)]");
    assert_eq!(entry("e", 0).label(), "[https://www.opensubtitles.org/e (rating: 0)]");
    assert_eq!(entry("f", 10_000).label(), "[https://www.opensubtitles.org/f (rating: 10)]");
    assert_eq!(entry("g", 50).label(), "[https://www.opensubtitles.org/g (rating: 0.05)]");
}

#[test]
fn first_row_decides_the_download() {
    let links = vec![Some("/download/1".to_string()), None, Some("/download/2".to_string())];
    assert_eq!(first_row_url(&links), Ok("https://www.opensubtitles.org/download/1".to_string()));
    assert_eq!(first_row_url(&vec![None, Some("/x".to_string())]), Err(Error::NoDownloadLink));
    assert_eq!(first_row_url(&Vec::new()), Err(Error::NoDownloadLink));
}

#[test]
fn rows_that_parse_are_kept_in_their_order() {
    let good = |name: &str, rating: &str| {
        let mut row = cells(cell(&["get"], &[Some("/x")]), rating, "1", "2");
        row[0] = cell(&[name], &[]);
        row
    };
    let rows = vec![good("head", "1"), good("a", "3"), good("bad", "x"), Vec::new(), good("b", "9")];
    assert_eq!(names(&parse_rows(&rows)), vec!["a", "b"]);
    assert_eq!(parse_rows(&Vec::new()).len(), 0);
    assert_eq!(parse_rows(&vec![good("head", "1")]).len(), 0);
}
