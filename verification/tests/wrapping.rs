use buffer_graphics_lib::wrapping::WrappingStrategy::AtCol;
use buffer_graphics_lib::wrapping::WrappingStrategy::AtColWithHyphen;
use buffer_graphics_lib::wrapping::WrappingStrategy::Cutoff;
use buffer_graphics_lib::wrapping::WrappingStrategy::Ellipsis;
use buffer_graphics_lib::wrapping::WrappingStrategy::NoWrap;
use buffer_graphics_lib::wrapping::WrappingStrategy::SpaceBeforeCol;

fn c(list: &[&str]) -> Vec<String> {
    list.iter().map(|s| s.to_string()).collect()
}

#[test]
fn none() {
    assert_eq!(NoWrap.wrap("this is a test"), c(&["this is a test"]));
    assert_eq!(NoWrap.wrap("this is\na test"), c(&["this is", "a test"]));
    assert_eq!(NoWrap.wrap("this is \n a test"), c(&["this is ", " a test"]));
}

#[test]
fn at_col() {
    assert_eq!(
        AtCol(4).wrap("some words, and some are longer"),
        c(&["some", " wor", "ds, ", "and ", "some", " are", " lon", "ger"])
    );

    assert_eq!(
        AtCol(5).wrap("Split Here\nBut mid word\nhere"),
        c(&["Split", " Here", "But m", "id wo", "rd", "here"])
    )
}

#[test]
fn at_col_hyphen() {
    assert_eq!(
        AtColWithHyphen(4).wrap("some words, and some are longer"),
        c(&["some", " wor-", "ds, ", "and ", "some", " are", " lon-", "ger"])
    );
    assert_eq!(
        AtColWithHyphen(4).wrap("smol large massive"),
        c(&["smol", " lar-", "ge m-", "assi-", "ve"])
    );
    assert_eq!(
        AtColWithHyphen(4).wrap("smol large\nmassive"),
        c(&["smol", " lar-", "ge", "mass-", "ive"])
    );
}

#[test]
fn space_before_col() {
    assert_eq!(
        SpaceBeforeCol(4).wrap("some words, and some are longer"),
        c(&["some", "wor", "ds,", "and", "some", "are", "lon", "ger"])
    );
    assert_eq!(
        SpaceBeforeCol(8).wrap("some words, and some are longer"),
        c(&["some", "words,", "and some", "are", "longer"])
    );
}

#[test]
fn cutoff() {
    assert_eq!(Cutoff(30).wrap("short test"), c(&["short test"]));
    assert_eq!(Cutoff(10).wrap("longer test string"), c(&["longer tes"]));
    assert_eq!(
        Cutoff(10).wrap("longer\ntest string"),
        c(&["longer", "test strin"])
    );
}

#[test]
fn ellipsis() {
    assert_eq!(Ellipsis(30).wrap("short test"), c(&["short test"]));
    assert_eq!(Ellipsis(10).wrap("longer test string"), c(&["longer tes…"]));
    assert_eq!(
        Ellipsis(10).wrap("longer\ntest string"),
        c(&["longer", "test strin…"])
    );
}
