use subfinder::error::Error;
use subfinder::query::{check_url, to_url_in_base, url, BASE_URL};

#[test]
fn base_is_the_one_site() {
    assert_eq!(BASE_URL, "https://www.opensubtitles.org");
}

#[test]
fn search_address_for_language_and_fingerprint() {
    assert_eq!(
        url("eng", "4b8a3d9f2c1e0756".to_string()),
        Ok("https://www.opensubtitles.org/pl/search/sublanguageid-eng/moviehash-4b8a3d9f2c1e0756"
            .to_string())
    );
}

#[test]
fn relative_link_is_put_behind_the_origin() {
    assert_eq!(
        to_url_in_base("/subtitles/7"),
        Ok("https://www.opensubtitles.org/subtitles/7".to_string())
    );
}

#[test]
fn absolute_link_stays_as_it_is() {
    assert_eq!(
        to_url_in_base("https://www.opensubtitles.org/subtitles/7"),
        Ok("https://www.opensubtitles.org/subtitles/7".to_string())
    );
}

#[test]
fn url_is_normalized_by_the_parser() {
    assert_eq!(check_url("HTTPS://Example.COM"), Ok("https://example.com/".to_string()));
}

#[test]
fn text_that_is_no_url_is_refused() {
    assert_eq!(check_url("no url at all"), Err(Error::InvalidUrl));
    assert_eq!(
        to_url_in_base("https://www.opensubtitles.org:99999999/x"),
        Err(Error::InvalidUrl)
    );
    assert_eq!(to_url_in_base(":99999999/x"), Err(Error::InvalidUrl));
}
