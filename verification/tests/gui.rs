use book_examples::gui::Button;
use book_examples::gui::Screen;

#[test]
fn gui_it_works() {
    assert_eq!(2 + 2, 4);
}

#[test]
fn screen_draws_each_component() {
    let screen = Screen {
        components: vec![
            Box::new(Button { width: 50, height: 10, label: String::from("OK") }),
            Box::new(Button { width: 30, height: 10, label: String::from("Cancel") }),
        ],
    };

    let lines = screen.run();
    assert_eq!(lines.len(), 2);
    assert_eq!(lines[0], "draw function called for Button.");
    assert_eq!(lines[1], "draw function called for Button.");
}
