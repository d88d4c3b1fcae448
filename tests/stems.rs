use stem_splitter_core::{Stem, StemIndex};

fn names(list: &[&str]) -> Vec<String> {
    list.iter().map(|s| s.to_string()).collect()
}

#[test]
fn vocals_resolve_to_declared_position() {
    let index = StemIndex::new(&names(&["drums", "bass", "other", "vocals"]), 4);
    assert_eq!(index.resolve("vocals", 0), 3);
    assert_eq!(index.resolve("drums", 1), 0);
    assert_eq!(index.resolve("bass", 2), 1);
    assert_eq!(index.resolve("other", 3), 2);
}

#[test]
fn names_compare_case_insensitively() {
    let index = StemIndex::new(&names(&["Bass", "VOCALS"]), 2);
    assert_eq!(index.resolve("vocals", 0), 1);
    assert_eq!(index.resolve("bass", 2), 0);
}

#[test]
fn no_declared_names_fall_back_by_position() {
    let index = StemIndex::new(&vec![], 4);
    assert_eq!(index.resolve("vocals", 0), 0);
    assert_eq!(index.resolve("drums", 1), 1);
    assert_eq!(index.resolve("bass", 2), 2);
    assert_eq!(index.resolve("other", 3), 3);
}

#[test]
fn no_declared_names_clamp_to_fewer_stems() {
    let index = StemIndex::new(&vec![], 2);
    assert_eq!(index.resolve("vocals", 0), 0);
    assert_eq!(index.resolve("drums", 1), 1);
    assert_eq!(index.resolve("bass", 2), 1);
    assert_eq!(index.resolve("other", 3), 1);
}

#[test]
fn later_duplicate_name_wins() {
    let index = StemIndex::from_lowercase_names(names(&["vocals", "drums", "vocals"]), 3);
    assert_eq!(index.resolve("vocals", 1), 2);
}

#[test]
fn absent_name_falls_back_clamped() {
    let index = StemIndex::from_lowercase_names(names(&["a", "b"]), 2);
    assert_eq!(index.resolve("other", 3), 1);
    assert_eq!(index.resolve("drums", 1), 1);
    assert_eq!(index.resolve("vocals", 0), 0);
    let empty = StemIndex::from_lowercase_names(vec![], 0);
    assert_eq!(empty.resolve("bass", 2), 0);
}

#[test]
fn all_and_names() {
    assert_eq!(Stem::all(), &[Stem::Vocals, Stem::Drums, Stem::Bass, Stem::Other]);
    assert_eq!(Stem::Vocals.name(), "vocals");
    assert_eq!(Stem::Drums.name(), "drums");
    assert_eq!(Stem::Bass.name(), "bass");
    assert_eq!(Stem::Other.name(), "other");
}

#[test]
fn mix_except_selects_complement() {
    assert_eq!(Stem::all_except(&[Stem::Vocals]), vec![Stem::Drums, Stem::Bass, Stem::Other]);
    assert_eq!(Stem::all_except(&[]), Stem::all().to_vec());
    assert_eq!(Stem::all_except(&[Stem::Other, Stem::Drums, Stem::Other]), vec![Stem::Vocals, Stem::Bass]);
    assert!(Stem::all_except(Stem::all()).is_empty());
}
