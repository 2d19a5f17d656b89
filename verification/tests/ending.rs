use benshi::recognise::ending::with_marks;

#[test]
fn a_mark_directly_after_a_title_is_given_back() {
    assert_eq!(with_marks("        Nisekoi: - 03.mkv", "Nisekoi"), "Nisekoi:");
    assert_eq!(with_marks("Show Title:", "Show Title"), "Show Title:");
    assert_eq!(with_marks("Show_Title+_-_03", "Show Title"), "Show Title+");
}

#[test]
fn what_stands_between_words_is_not_given_back() {
    assert_eq!(with_marks("Nisekoi - 03.mkv", "Nisekoi"), "Nisekoi");
    assert_eq!(with_marks("Show.Title.S01E05", "Show Title"), "Show Title");
    assert_eq!(with_marks("Show+Title+03", "Show Title"), "Show Title");
    assert_eq!(with_marks("Show Title | 03", "Show Title"), "Show Title");
}

#[test]
fn a_title_the_name_does_not_spell_is_left_alone() {
    assert_eq!(with_marks("", "Show Title"), "Show Title");
    assert_eq!(with_marks("Another Show: - 03", "Show Title"), "Show Title");
}
