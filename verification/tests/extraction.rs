use scroll_collect::extract::{candidate_of, extract, Fragment};
use scroll_collect::ident::{ids_equal, normalize};

fn link(handle: &str) -> Vec<u8> {
    format!("https://www.instagram.com/{}/", handle).into_bytes()
}

fn frag(targets: Vec<Vec<u8>>) -> Fragment {
    Fragment { links: targets }
}

#[test]
fn normalize_trims_and_lowercases() {
    assert_eq!(normalize(&b"  ABC def ".to_vec()), b"abc def".to_vec());
    assert_eq!(normalize(&b"\t\r\nMiXeD\n".to_vec()), b"mixed".to_vec());
    assert_eq!(normalize(&b"already".to_vec()), b"already".to_vec());
    assert_eq!(normalize(&b"   ".to_vec()), b"".to_vec());
    assert_eq!(normalize(&b"".to_vec()), b"".to_vec());
}

#[test]
fn ids_equal_compares_bytes() {
    assert!(ids_equal(&b"abc".to_vec(), &b"abc".to_vec()));
    assert!(!ids_equal(&b"abc".to_vec(), &b"abd".to_vec()));
    assert!(!ids_equal(&b"abc".to_vec(), &b"ab".to_vec()));
}

#[test]
fn candidate_is_third_path_segment_normalized() {
    assert_eq!(candidate_of(&link("Alice")), b"alice".to_vec());
    assert_eq!(
        candidate_of(&b"https://www.instagram.com/Bob".to_vec()),
        b"bob".to_vec()
    );
    // too few segments: no candidate
    assert_eq!(candidate_of(&b"".to_vec()), b"".to_vec());
    assert_eq!(candidate_of(&b"/x".to_vec()), b"".to_vec());
    assert_eq!(candidate_of(&b"plain text".to_vec()), b"".to_vec());
}

#[test]
fn extract_normalizes_and_drops_empties() {
    let ids = extract(&frag(vec![
        link(" Alice "),
        b"https://www.instagram.com//x".to_vec(), // third segment empty
        b"garbage".to_vec(),
        b"".to_vec(),
        b"https://www.instagram.com/   /".to_vec(), // whitespace-only segment
    ]));
    assert_eq!(ids, vec![b"alice".to_vec()]);
}

#[test]
fn extract_empty_fragment_yields_nothing() {
    let ids = extract(&frag(Vec::new()));
    assert!(ids.is_empty());
}

#[test]
fn extract_deduplicates_within_a_fragment() {
    let ids = extract(&frag(vec![link("Bob"), link(" BOB"), link("bob"), link("eve")]));
    assert_eq!(ids, vec![b"bob".to_vec(), b"eve".to_vec()]);
}
