use barbara::cache::{read_snapshot, select_latest, CacheContext};
use barbara::snapshot::{decode_entries, encode_entries};
use barbara::url_entry::UrlEntry;

fn entry(loc: &str, lastmod: Option<&str>) -> UrlEntry {
    UrlEntry { loc: loc.to_string(), lastmod: lastmod.map(|s| s.to_string()) }
}

fn same(a: &[UrlEntry], b: &[UrlEntry]) -> bool {
    a.len() == b.len() && a.iter().zip(b.iter()).all(|(x, y)| x.loc == y.loc && x.lastmod == y.lastmod)
}

#[test]
fn round_trip_empty() {
    let v: Vec<UrlEntry> = Vec::new();
    let bytes = encode_entries(&v);
    assert_eq!(bytes, vec![0u8; 8]);
    let back = decode_entries(&bytes).expect("an empty snapshot decodes");
    assert!(back.is_empty());
}

#[test]
fn round_trip_one() {
    let v = vec![entry("https://developer.mozilla.org/en-US/docs/Web", Some("2024-01-01"))];
    let back = decode_entries(&encode_entries(&v)).unwrap();
    assert!(same(&v, &back));
}

#[test]
fn round_trip_thousand() {
    let v: Vec<UrlEntry> = (0..1000)
        .map(|i| {
            let d = format!("2024-01-{:02}", i % 28 + 1);
            entry(&format!("https://site/page/{}/é", i), if i % 3 == 0 { None } else { Some(d.as_str()) })
        })
        .collect();
    let back = decode_entries(&encode_entries(&v)).unwrap();
    assert!(same(&v, &back));
}

#[test]
fn encoding_layout() {
    let v = vec![entry("ab", None), entry("c", Some("d"))];
    let bytes = encode_entries(&v);
    let mut expected = vec![2, 0, 0, 0, 0, 0, 0, 0];
    expected.extend_from_slice(&[2, 0, 0, 0, 0, 0, 0, 0, b'a', b'b', 0]);
    expected.extend_from_slice(&[1, 0, 0, 0, 0, 0, 0, 0, b'c', 1, 1, 0, 0, 0, 0, 0, 0, 0, b'd']);
    assert_eq!(bytes, expected);
}

#[test]
fn decode_rejects_damaged_bytes() {
    let v = vec![entry("ab", Some("cd"))];
    let bytes = encode_entries(&v);
    let mut trailing = bytes.clone();
    trailing.push(0);
    assert!(decode_entries(&trailing).is_none());
    assert!(decode_entries(&bytes[..bytes.len() - 1].to_vec()).is_none());
    let mut bad_tag = bytes.clone();
    bad_tag[18] = 7;
    assert!(decode_entries(&bad_tag).is_none());
    let mut bad_utf8 = bytes.clone();
    bad_utf8[16] = 0xff;
    assert!(decode_entries(&bad_utf8).is_none());
    assert!(decode_entries(&vec![1, 2, 3]).is_none());
}

#[test]
fn load_of_empty_snapshot_is_no_result() {
    let v: Vec<UrlEntry> = Vec::new();
    assert!(read_snapshot(&encode_entries(&v)).is_none());
    assert!(read_snapshot(&Vec::new()).is_none());
    assert!(read_snapshot(&vec![9, 9, 9]).is_none());
}

#[test]
fn load_gives_stored_entries() {
    let v = vec![entry("x", None)];
    let got = read_snapshot(&encode_entries(&v)).unwrap();
    assert!(same(&v, &got));
}

#[test]
fn latest_is_strictly_greatest() {
    assert_eq!(select_latest(&vec![10, 30, 20]), Some(1));
    assert_eq!(select_latest(&vec![5, 4]), Some(0));
    assert_eq!(select_latest(&vec![7, 9, 9]), Some(1));
}

#[test]
fn latest_of_no_file_is_none() {
    assert_eq!(select_latest(&Vec::new()), None);
}

#[test]
fn file_paths_are_unique() {
    let mut ctx = CacheContext::new("/tmp", 12);
    assert_eq!(ctx.dir().as_str(), "/tmp/barbara");
    let first = ctx.next_file_path(345);
    assert_eq!(first, "/tmp/barbara/barbara_12_345_0.bin");
    let mut names = vec![first];
    for _ in 0..49 {
        names.push(ctx.next_file_path(345));
    }
    assert_eq!(names[49], "/tmp/barbara/barbara_12_345_49.bin");
    let mut sorted = names.clone();
    sorted.sort();
    sorted.dedup();
    assert_eq!(sorted.len(), 50);
}

#[test]
fn fifty_snapshots_decode_independently() {
    let snapshots: Vec<Vec<u8>> = (0..50)
        .map(|i| encode_entries(&vec![entry(&format!("https://site/{}", i), None)]))
        .collect();
    for (i, b) in snapshots.iter().enumerate() {
        let got = read_snapshot(b).unwrap();
        assert_eq!(got.len(), 1);
        assert_eq!(got[0].loc, format!("https://site/{}", i));
    }
}

#[test]
fn cache_dir_under_temp() {
    assert_eq!(barbara::cache::cache_dir("/var/tmp"), "/var/tmp/barbara");
}
