use labyrinth::file_handler::{
    labyrinth_document, labyrinth_file_name, labyrinth_path, next_labyrinth_id, read_name,
    NameReading, LABYRINTH_DIRECTORY,
};

fn names(list: &[&str]) -> Vec<String> {
    list.iter().map(|name| name.to_string()).collect()
}

#[test]
fn read_name_reads_the_number() {
    assert_eq!(read_name("laby0.txt"), NameReading::Numbered(0));
    assert_eq!(read_name("laby7.txt"), NameReading::Numbered(7));
    assert_eq!(read_name("laby12.txt"), NameReading::Numbered(12));
    assert_eq!(read_name("laby1234567890.txt"), NameReading::Numbered(1_234_567_890));
    assert_eq!(read_name("laby007.txt"), NameReading::Numbered(7));
    assert_eq!(read_name("laby000.txt"), NameReading::Numbered(0));
}

#[test]
fn read_name_refuses_other_names() {
    for name in [
        "",
        "laby",
        ".txt",
        "laby.txt",
        "laby1.tx",
        "aby1.txt",
        "Laby1.txt",
        "laby1.TXT",
        "laby1xtxt",
        "laby-1.txt",
        "laby+1.txt",
        "laby1a.txt",
        "laby 1.txt",
        "laby1.txt ",
        " laby1.txt",
        "xlaby1.txt",
        "laby1.txt.bak",
        "laby1.5.txt",
        "maze1.txt",
        "laby١.txt",
        "labyé.txt",
        "notes.md",
    ] {
        assert_eq!(read_name(name), NameReading::Other, "{name}");
    }
}

#[test]
fn read_name_tells_numbers_that_do_not_fit() {
    let largest = format!("laby{}.txt", usize::MAX);
    assert_eq!(read_name(&largest), NameReading::Numbered(usize::MAX));
    let beyond = format!("laby{}.txt", usize::MAX as u128 + 1);
    assert_eq!(read_name(&beyond), NameReading::TooLarge);
    assert_eq!(read_name("laby99999999999999999999999999999999.txt"), NameReading::TooLarge);
    // Digits decide first: a long number with a letter in it is no labyrinth.
    assert_eq!(read_name("laby9999999999999999999999999999999x.txt"), NameReading::Other);
    let padded = format!("laby{}{}.txt", "0".repeat(40), 15);
    assert_eq!(read_name(&padded), NameReading::Numbered(15));
}

#[test]
fn next_id_is_zero_in_an_empty_directory() {
    assert_eq!(next_labyrinth_id(&names(&[])), Some(0));
    assert_eq!(next_labyrinth_id(&names(&["notes.md", "laby.txt", "labyx.txt"])), Some(0));
}

#[test]
fn next_id_is_one_more_than_the_greatest() {
    assert_eq!(next_labyrinth_id(&names(&["laby0.txt"])), Some(1));
    assert_eq!(next_labyrinth_id(&names(&["laby0.txt", "laby1.txt", "laby2.txt"])), Some(3));
    assert_eq!(next_labyrinth_id(&names(&["laby2.txt", "laby0.txt", "laby1.txt"])), Some(3));
    assert_eq!(next_labyrinth_id(&names(&["laby41.txt", "readme", "laby7.txt"])), Some(42));
    assert_eq!(next_labyrinth_id(&names(&["laby5.txt", "laby5.txt"])), Some(6));
    assert_eq!(next_labyrinth_id(&names(&["laby9.txt", "laby10.txt"])), Some(11));
    assert_eq!(next_labyrinth_id(&names(&["laby010.txt", "laby9.txt"])), Some(11));
}

#[test]
fn next_id_is_none_where_it_does_not_fit() {
    let largest = format!("laby{}.txt", usize::MAX);
    let before = format!("laby{}.txt", usize::MAX - 1);
    assert_eq!(next_labyrinth_id(&names(&[&before])), Some(usize::MAX));
    assert_eq!(next_labyrinth_id(&names(&[&largest])), None);
    assert_eq!(next_labyrinth_id(&names(&["laby1.txt", &largest, "laby2.txt"])), None);
    assert_eq!(
        next_labyrinth_id(&names(&["laby3.txt", "laby99999999999999999999999999.txt"])),
        None
    );
}

#[test]
fn file_name_writes_the_number() {
    assert_eq!(labyrinth_file_name(0), "laby0.txt");
    assert_eq!(labyrinth_file_name(9), "laby9.txt");
    assert_eq!(labyrinth_file_name(10), "laby10.txt");
    assert_eq!(labyrinth_file_name(305), "laby305.txt");
    assert_eq!(labyrinth_file_name(usize::MAX), format!("laby{}.txt", usize::MAX));
}

#[test]
fn file_name_reads_back() {
    for id in [0usize, 1, 9, 10, 11, 99, 100, 101, 4096, 999_999, usize::MAX - 1, usize::MAX] {
        assert_eq!(read_name(&labyrinth_file_name(id)), NameReading::Numbered(id));
    }
}

#[test]
fn saving_under_the_next_id_raises_it() {
    let mut taken = names(&["laby3.txt", "other.txt"]);
    for expected in 4..12 {
        let id = next_labyrinth_id(&taken).unwrap();
        assert_eq!(id, expected);
        taken.push(labyrinth_file_name(id));
    }
}

#[test]
fn path_lies_in_the_directory() {
    assert_eq!(LABYRINTH_DIRECTORY, "./generated/");
    assert_eq!(labyrinth_path(0), "./generated/laby0.txt");
    assert_eq!(labyrinth_path(27), "./generated/laby27.txt");
}

#[test]
fn document_has_a_heading_with_the_time() {
    assert_eq!(
        labyrinth_document("2024-01-02 03:04:05 UTC", "##\n##\n"),
        "Labyrinth. 2024-01-02 03:04:05 UTC\n##\n##\n"
    );
    assert_eq!(labyrinth_document("", ""), "Labyrinth. \n");
}
