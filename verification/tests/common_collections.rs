use book_examples::collections::Command;
use book_examples::collections::Departments;
use book_examples::collections::add_employee;
use book_examples::collections::is_even;
use book_examples::collections::is_vowel;
use book_examples::collections::mode;
use book_examples::collections::parse_command;
use book_examples::collections::pig_latin;
use book_examples::collections::split_words;

#[test]
fn even_and_odd() {
    assert!(is_even(0));
    assert!(is_even(-4));
    assert!(!is_even(7));
}

#[test]
fn vowels_and_consonants() {
    assert!(is_vowel(&'a'));
    assert!(is_vowel(&'E'));
    assert!(!is_vowel(&'y'));
    assert!(!is_vowel(&'.'));
}

#[test]
fn mode_picks_most_frequent() {
    let v = vec![10, 9, 8, 7, 6, 5, 4, 4, 4, 4, 3, 3, 3, 3, 2, 1];
    assert_eq!(mode(&v), vec![4, 3]);
}

#[test]
fn mode_of_single_value_runs() {
    assert_eq!(mode(&vec![5, 5, 5, 2]), vec![5]);
}

#[test]
fn mode_is_empty_when_all_counts_agree() {
    assert_eq!(mode(&vec![1, 2, 3]), Vec::<i32>::new());
    assert_eq!(mode(&Vec::new()), Vec::<i32>::new());
}

#[test]
fn pig_latin_sentence() {
    let text = String::from("Hello there, Alberta.");
    assert_eq!(pig_latin(&text), "Ello-hay here-tay, Alberta-hay.");
}

#[test]
fn pig_latin_vowel_word() {
    assert_eq!(pig_latin(&String::from("apple then")), "apple-hay hen-tay");
}

#[test]
fn pig_latin_single_characters() {
    assert_eq!(pig_latin(&String::from("a")), "a");
    assert_eq!(pig_latin(&String::from("x")), "");
}

#[test]
fn pig_latin_empty_text() {
    assert_eq!(pig_latin(&String::new()), "");
}

#[test]
fn employees_grouped_by_department() {
    let mut employees = Departments::new();
    add_employee(&mut employees, "Alice", "HR");
    add_employee(&mut employees, "Bob", "HR");
    add_employee(&mut employees, "Carol", "Engineering");

    let hr = employees.get("HR").unwrap();
    assert_eq!(hr, &vec![String::from("Alice"), String::from("Bob")]);

    let eng = employees.get("Engineering").unwrap();
    assert_eq!(eng, &vec![String::from("Carol")]);

    assert!(employees.get("Sales").is_none());
}

#[test]
fn words_split_on_whitespace() {
    assert_eq!(
        split_words("  add Carol to Engineering "),
        vec!["add", "Carol", "to", "Engineering"]
    );
    assert_eq!(split_words(""), Vec::<String>::new());
}

#[test]
fn commands_parse_as_expected() {
    assert!(matches!(parse_command("show all"), Command::ShowAll));

    match parse_command("show HR") {
        Command::Show { department } => assert_eq!(department, "HR"),
        _ => panic!("expected a show command"),
    }

    match parse_command("add Carol to Engineering") {
        Command::Add { employee, department } => {
            assert_eq!(employee, "Carol");
            assert_eq!(department, "Engineering");
        }
        _ => panic!("expected an add command"),
    }

    assert!(matches!(parse_command("add Carol"), Command::Quit));
    assert!(matches!(parse_command("retire Carol"), Command::Quit));
    assert!(matches!(parse_command("show"), Command::Quit));
}
