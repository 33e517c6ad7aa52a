use std::io::Write;
use subfinder::archive::{extract_member, list_members, member_extension, order_members};
use subfinder::error::Error;

fn archive_of(members: &[(&str, &[u8])]) -> Vec<u8> {
    let mut writer = zip::ZipWriter::new(std::io::Cursor::new(Vec::new()));
    let options = zip::write::SimpleFileOptions::default()
        .compression_method(zip::CompressionMethod::Stored);
    for (name, bytes) in members {
        writer.start_file(*name, options).unwrap();
        writer.write_all(bytes).unwrap();
    }
    writer.finish().unwrap().into_inner()
}

fn strings(names: &[&str]) -> Vec<String> {
    names.iter().map(|n| n.to_string()).collect()
}

#[test]
fn sidecar_is_left_out_and_subtitles_come_first() {
    let names = strings(&["movie.srt", "movie.en.srt", "info.nfo", "readme.txt"]);
    assert_eq!(order_members(&names), strings(&["movie.srt", "movie.en.srt", "readme.txt"]));
}

#[test]
fn groups_keep_the_order_of_the_archive() {
    let names = strings(&["b.txt", "z.SRT", "a.sub", "INFO.NFO", "a.Srt", "c.nfo.txt", "srt"]);
    assert_eq!(
        order_members(&names),
        strings(&["z.SRT", "a.Srt", "b.txt", "a.sub", "c.nfo.txt", "srt"])
    );
    assert_eq!(order_members(&Vec::new()), Vec::<String>::new());
}

#[test]
fn members_of_an_archive_are_listed() {
    let bytes = archive_of(&[("readme.txt", b"r"), ("info.nfo", b"i"), ("movie.srt", b"s")]);
    assert_eq!(list_members(&bytes), Ok(strings(&["movie.srt", "readme.txt"])));
}

#[test]
fn bytes_that_are_no_archive() {
    assert_eq!(list_members(b"no archive"), Err(Error::IOError));
    assert_eq!(extract_member(b"no archive", "movie.srt"), Err(Error::IOError));
}

#[test]
fn member_is_read_by_its_name() {
    let bytes = archive_of(&[("readme.txt", b"read me"), ("movie.srt", b"1\n00:00 --> 00:01\nhi\n")]);
    assert_eq!(extract_member(&bytes, "movie.srt"), Ok(b"1\n00:00 --> 00:01\nhi\n".to_vec()));
    assert_eq!(extract_member(&bytes, "readme.txt"), Ok(b"read me".to_vec()));
}

#[test]
fn member_that_is_not_there() {
    let bytes = archive_of(&[("readme.txt", b"read me")]);
    assert_eq!(extract_member(&bytes, "movie.srt"), Err(Error::MemberNotFound));
}

#[test]
fn extension_follows_the_last_dot() {
    assert_eq!(member_extension("movie.en.srt"), Ok("srt".to_string()));
    assert_eq!(member_extension("movie.srt"), Ok("srt".to_string()));
    assert_eq!(member_extension("movie."), Ok(String::new()));
    assert_eq!(member_extension(".hidden"), Ok("hidden".to_string()));
}

#[test]
fn name_without_a_dot_has_no_extension() {
    assert_eq!(member_extension("readme"), Err(Error::NoExtension));
    assert_eq!(member_extension(""), Err(Error::NoExtension));
}
