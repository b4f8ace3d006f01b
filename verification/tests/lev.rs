use doplr::lev::damlev;

#[test]
fn damerau_levenshtein_empty() {
    assert_eq!(0, damlev("", ""));
}

#[test]
fn damerau_levenshtein_same() {
    assert_eq!(0, damlev("damerau", "damerau"));
}

#[test]
fn damerau_levenshtein_first_empty() {
    assert_eq!(7, damlev("", "damerau"));
}

#[test]
fn damerau_levenshtein_second_empty() {
    assert_eq!(7, damlev("damerau", ""));
}

#[test]
fn damerau_levenshtein_diff() {
    assert_eq!(2, damlev("ca", "abc"));
}

#[test]
fn damerau_levenshtein_diff_short() {
    assert_eq!(3, damlev("damerau", "aderua"));
}

#[test]
fn damerau_levenshtein_diff_reversed() {
    assert_eq!(3, damlev("aderua", "damerau"));
}

#[test]
fn damerau_levenshtein_diff_multibyte() {
    assert_eq!(3, damlev("öঙ香", "abc"));
    assert_eq!(3, damlev("abc", "öঙ香"));
}

#[test]
fn damerau_levenshtein_diff_unequal_length() {
    assert_eq!(6, damlev("damerau", "aderuaxyz"));
}

#[test]
fn damerau_levenshtein_diff_unequal_length_reversed() {
    assert_eq!(6, damlev("aderuaxyz", "damerau"));
}

#[test]
fn damerau_levenshtein_diff_comedians() {
    assert_eq!(5, damlev("Stewart", "Colbert"));
}

#[test]
fn damerau_levenshtein_many_transpositions() {
    assert_eq!(4, damlev("abcdefghijkl", "bacedfgihjlk"));
}

#[test]
fn damerau_levenshtein_diff_longer() {
    let a = "The quick brown fox jumped over the angry dog.";
    let b = "Lehem ipsum dolor sit amet, dicta latine an eam.";
    assert_eq!(36, damlev(a, b));
}

#[test]
fn damerau_levenshtein_beginning_transposition() {
    assert_eq!(1, damlev("foobar", "ofobar"));
}

#[test]
fn damerau_levenshtein_end_transposition() {
    assert_eq!(1, damlev("specter", "spectre"));
}

#[test]
fn damerau_levenshtein_unrestricted_edit() {
    assert_eq!(3, damlev("a cat", "an abct"));
}
