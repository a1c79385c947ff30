use devspace_sweeper::size::{dir_size, size_hint, EntryKind, EntryMeta};

fn file(len: u64) -> Option<EntryMeta> {
    Some(EntryMeta { kind: EntryKind::File, len })
}

fn dir() -> Option<EntryMeta> {
    Some(EntryMeta { kind: EntryKind::Directory, len: 4096 })
}

#[test]
fn dir_size_adds_the_files() {
    assert_eq!(dir_size(&vec![dir(), file(18), dir(), file(3), file(0)]), 21);
    assert_eq!(dir_size(&vec![]), 0);
}

#[test]
fn dir_size_passes_over_what_is_unreadable_or_no_file() {
    let link = Some(EntryMeta { kind: EntryKind::Other, len: 99 });
    assert_eq!(dir_size(&vec![None, link, file(7), None]), 7);
    assert_eq!(dir_size(&vec![dir(), None]), 0);
}

#[test]
fn dir_size_stays_at_the_maximum() {
    assert_eq!(dir_size(&vec![file(u64::MAX - 1), file(5), file(1)]), u64::MAX);
    assert_eq!(dir_size(&vec![file(u64::MAX), file(u64::MAX)]), u64::MAX);
    assert_eq!(dir_size(&vec![file(u64::MAX - 1), file(1)]), u64::MAX);
}

#[test]
fn size_hint_of_a_file_is_its_length() {
    let meta = EntryMeta { kind: EntryKind::File, len: 42 };
    assert_eq!(size_hint(&meta, &vec![file(1000)]), 42);
}

#[test]
fn size_hint_of_a_directory_is_the_total_beneath() {
    let meta = EntryMeta { kind: EntryKind::Directory, len: 4096 };
    assert_eq!(size_hint(&meta, &vec![dir(), file(18), file(3)]), 21);
    let link = EntryMeta { kind: EntryKind::Other, len: 11 };
    assert_eq!(size_hint(&link, &vec![Some(link)]), 0);
}
