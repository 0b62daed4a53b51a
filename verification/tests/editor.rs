use calc::editor::{highlight, App, Completion, Highlight, Key, KeyAction};
use calc::interpreter::Interpreter;
use calc::scanner::Scanner;

fn typed(app: &mut App, interpreter: &Interpreter, text: &str) {
    for c in text.chars() {
        assert_eq!(
            app.handle_key(&Key::Char(c.to_string()), &interpreter.env),
            KeyAction::Continue
        );
    }
}

fn offered(app: &App) -> Option<(usize, Vec<&str>)> {
    app.completion
        .as_ref()
        .map(|c| (c.index, c.completions.iter().map(|s| s.as_str()).collect()))
}

#[test]
fn a_new_editor_is_empty() {
    let app = App::new();
    assert_eq!(app.input, "");
    assert_eq!(app.cursor_position, 0);
    assert!(app.tokens.is_empty());
    assert_eq!(app.message, "");
    assert!(app.history.is_empty());
    assert_eq!(app.history_index, 0);
    assert!(app.completion.is_none());
}

#[test]
fn characters_go_in_at_the_cursor() {
    let i = Interpreter::new();
    let mut app = App::new();
    typed(&mut app, &i, "1+3");
    assert_eq!((app.input.as_str(), app.cursor_position), ("1+3", 3));
    assert_eq!(app.handle_key(&Key::Left, &i.env), KeyAction::Continue);
    typed(&mut app, &i, "2");
    assert_eq!((app.input.as_str(), app.cursor_position), ("1+23", 3));
    app.move_cursor_left();
    app.move_cursor_left();
    app.move_cursor_left();
    app.move_cursor_left();
    assert_eq!(app.cursor_position, 0);
    app.enter_char("(");
    assert_eq!((app.input.as_str(), app.cursor_position), ("(1+23", 1));
    for _ in 0..9 {
        assert_eq!(app.handle_key(&Key::Right, &i.env), KeyAction::Continue);
    }
    assert_eq!(app.cursor_position, 5);
    assert_eq!(app.clamp_cursor(99), 5);
    assert_eq!(app.clamp_cursor(2), 2);
    app.reset_cursor();
    assert_eq!(app.cursor_position, 0);
}

#[test]
fn a_cursor_out_of_place_takes_no_character() {
    let mut app = App::new();
    app.input = "é".to_string();
    app.cursor_position = 1;
    app.enter_char("x");
    assert_eq!((app.input.as_str(), app.cursor_position), ("é", 1));
    app.cursor_position = 7;
    app.enter_char("x");
    assert_eq!((app.input.as_str(), app.cursor_position), ("é", 7));
    app.cursor_position = 2;
    app.enter_char("x");
    assert_eq!((app.input.as_str(), app.cursor_position), ("éx", 3));
}

#[test]
fn backspace_takes_the_character_before_the_cursor() {
    let i = Interpreter::new();
    let mut app = App::new();
    typed(&mut app, &i, "12+3");
    assert_eq!(app.handle_key(&Key::Backspace, &i.env), KeyAction::Continue);
    assert_eq!((app.input.as_str(), app.cursor_position), ("12+", 3));
    app.move_cursor_left();
    app.delete_char();
    assert_eq!((app.input.as_str(), app.cursor_position), ("1+", 1));
    app.delete_char();
    assert_eq!((app.input.as_str(), app.cursor_position), ("+", 0));
    app.delete_char();
    assert_eq!((app.input.as_str(), app.cursor_position), ("+", 0));
    app.cursor_position = 5;
    app.delete_char();
    assert_eq!((app.input.as_str(), app.cursor_position), ("+", 1));
}

#[test]
fn enter_asks_for_evaluation_and_esc_leaves() {
    let i = Interpreter::new();
    let mut app = App::new();
    typed(&mut app, &i, "1+1");
    assert_eq!(app.handle_key(&Key::Enter, &i.env), KeyAction::Evaluate);
    assert_eq!((app.input.as_str(), app.cursor_position), ("1+1", 3));
    assert_eq!(app.handle_key(&Key::Esc, &i.env), KeyAction::Quit);
    assert_eq!(app.handle_key(&Key::Other, &i.env), KeyAction::Continue);
    assert_eq!(app.handle_key(&Key::Tab, &i.env), KeyAction::Continue);
    assert_eq!((app.input.as_str(), app.cursor_position), ("1+1", 3));
}

#[test]
fn accepted_lines_make_the_history() {
    let i = Interpreter::new();
    let mut app = App::new();
    typed(&mut app, &i, "1");
    app.accept();
    typed(&mut app, &i, "22");
    app.accept();
    assert_eq!(app.history, vec!["1".to_string(), "22".to_string()]);
    assert_eq!((app.input.as_str(), app.cursor_position, app.history_index), ("", 0, 2));
    // down from behind the history changes nothing
    assert_eq!(app.handle_key(&Key::Down, &i.env), KeyAction::Continue);
    assert_eq!((app.input.as_str(), app.cursor_position, app.history_index), ("", 0, 2));
    assert_eq!(app.handle_key(&Key::Up, &i.env), KeyAction::Continue);
    assert_eq!((app.input.as_str(), app.cursor_position, app.history_index), ("22", 2, 1));
    app.decr_history();
    assert_eq!((app.input.as_str(), app.cursor_position, app.history_index), ("1", 1, 0));
    app.decr_history();
    assert_eq!((app.input.as_str(), app.cursor_position, app.history_index), ("1", 1, 0));
    app.incr_history();
    assert_eq!((app.input.as_str(), app.cursor_position, app.history_index), ("22", 2, 1));
    // behind the last line stands an empty one
    app.incr_history();
    assert_eq!((app.input.as_str(), app.cursor_position, app.history_index), ("", 0, 2));
    app.incr_history();
    assert_eq!((app.input.as_str(), app.cursor_position, app.history_index), ("", 0, 2));
}

#[test]
fn names_are_offered_for_the_name_before_the_cursor() {
    let mut i = Interpreter::new();
    i.env.set_var("sq", calc::number::Number::one()).unwrap();
    let mut app = App::new();
    typed(&mut app, &i, "1+s");
    assert_eq!(offered(&app), Some((0, vec!["sin", "sq", "sqrt", "sum"])));
    typed(&mut app, &i, "q");
    assert_eq!(offered(&app), Some((0, vec!["sq", "sqrt"])));
    typed(&mut app, &i, "x");
    assert_eq!(offered(&app), None);
    assert_eq!(app.handle_key(&Key::Backspace, &i.env), KeyAction::Continue);
    assert_eq!(offered(&app), Some((0, vec!["sq", "sqrt"])));
    typed(&mut app, &i, "+");
    assert_eq!(offered(&app), None);
    // the name ends at the cursor, not at the end of the line
    app.input = "su+1".to_string();
    app.cursor_position = 2;
    app.update_completions(&i.env);
    assert_eq!(offered(&app), Some((0, vec!["sum"])));
    app.cursor_position = 9;
    app.update_completions(&i.env);
    assert_eq!(offered(&app), None);
}

#[test]
fn a_completion_is_picked_and_taken() {
    let i = Interpreter::new();
    let mut app = App::new();
    typed(&mut app, &i, "2*s");
    assert_eq!(offered(&app), Some((0, vec!["sin", "sqrt", "sum"])));
    assert_eq!(app.handle_key(&Key::Up, &i.env), KeyAction::Continue);
    assert_eq!(offered(&app).unwrap().0, 0);
    assert_eq!(app.handle_key(&Key::Down, &i.env), KeyAction::Continue);
    assert_eq!(offered(&app).unwrap().0, 1);
    app.completion_next();
    app.completion_next();
    assert_eq!(offered(&app).unwrap().0, 2);
    app.completion_previous();
    assert_eq!(offered(&app).unwrap().0, 1);
    assert_eq!(app.handle_key(&Key::Tab, &i.env), KeyAction::Continue);
    assert_eq!((app.input.as_str(), app.cursor_position), ("2*sqrt", 6));
    // Enter takes the name too, and asks for evaluation
    let mut app = App::new();
    typed(&mut app, &i, "su");
    assert_eq!(app.handle_key(&Key::Enter, &i.env), KeyAction::Evaluate);
    assert_eq!((app.input.as_str(), app.cursor_position), ("sum", 3));
    // the name before the cursor is replaced, what follows stays
    let mut app = App::new();
    app.input = "1+mi+2".to_string();
    app.cursor_position = 4;
    app.update_completions(&i.env);
    assert_eq!(offered(&app), Some((0, vec!["min"])));
    app.apply_completion();
    assert_eq!((app.input.as_str(), app.cursor_position), ("1+min+2", 5));
}

#[test]
fn a_completion_out_of_order_does_no_harm() {
    let mut app = App::new();
    app.input = "ab".to_string();
    app.cursor_position = 2;
    app.completion = Some(Completion { index: 3, completions: vec!["abc".to_string()] });
    app.apply_completion();
    assert_eq!((app.input.as_str(), app.cursor_position), ("ab", 2));
    app.completion_next();
    assert_eq!(offered(&app), Some((0, vec!["abc"])));
    app.completion = Some(Completion { index: 0, completions: vec![] });
    app.completion_next();
    assert_eq!(offered(&app), Some((0, vec![])));
    app.completion_previous();
    assert_eq!(offered(&app), Some((0, vec![])));
    app.apply_completion();
    assert_eq!((app.input.as_str(), app.cursor_position), ("ab", 2));
    app.completion = None;
    app.completion_next();
    app.apply_completion();
    assert!(app.completion.is_none());
}

#[test]
fn tokens_have_colours() {
    let tokens = Scanner::new("f(x)+2*_").scan_tokens().unwrap();
    let classes: Vec<Highlight> = (0..tokens.len()).map(|i| highlight(&tokens, i)).collect();
    assert_eq!(
        classes,
        vec![
            Highlight::Function,
            Highlight::Parenthesis,
            Highlight::Variable,
            Highlight::Parenthesis,
            Highlight::Operator,
            Highlight::Number,
            Highlight::Operator,
            Highlight::Plain,
            Highlight::Plain,
        ]
    );
    let tokens = Scanner::new("x").scan_tokens().unwrap();
    assert_eq!(highlight(&tokens[..1], 0), Highlight::Variable);
}

#[test]
fn names_of_every_script_are_completed() {
    let mut i = Interpreter::new();
    i.env.set_var("éa", calc::number::Number::one()).unwrap();
    i.env.set_var("éb", calc::number::Number::one()).unwrap();
    let mut app = App::new();
    app.input = "1+é".to_string();
    app.cursor_position = 4;
    app.update_completions(&i.env);
    assert_eq!(offered(&app), Some((0, vec!["éa", "éb"])));
    app.completion_next();
    app.apply_completion();
    assert_eq!((app.input.as_str(), app.cursor_position), ("1+éb", 5));
}
