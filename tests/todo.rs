use exercises::todo::{
    count_done, mark_done, parse_usize, split_done, tasks_from_lines, tasks_to_text, Command, Config,
    MarkOutcome, Task,
};

fn args(words: &[&str]) -> Vec<String> {
    words.iter().map(|w| w.to_string()).collect()
}

#[test]
fn test_parse_add() {
    let args = vec!["add".to_string(), "Buy milk".to_string()];
    let config = Config::parse(&args).unwrap();

    match config.command {
        Command::Add(s) => assert_eq!(s, "Buy milk"),
        _ => panic!("Expected Add command"),
    }
}

#[test]
fn test_parse_list() {
    let args = vec!["list".to_string()];
    let config = Config::parse(&args).unwrap();

    match config.command {
        Command::List => {}
        _ => panic!("Expected List command"),
    }
}

#[test]
fn test_parse_done() {
    let args = vec!["done".to_string(), "3".to_string()];
    let config = Config::parse(&args).unwrap();

    match config.command {
        Command::Done(id) => assert_eq!(id, 3),
        _ => panic!("Expected Done command"),
    }
}

#[test]
fn test_parse_verbose() {
    let args = vec!["--verbose".to_string(), "list".to_string()];
    let config = Config::parse(&args).unwrap();

    assert!(config.verbose);
}

#[test]
fn test_parse_custom_file() {
    let args = vec![
        "--file".to_string(),
        "custom.txt".to_string(),
        "list".to_string(),
    ];
    let config = Config::parse(&args).unwrap();

    assert_eq!(config.file_path, "custom.txt");
}

#[test]
fn test_task_from_line() {
    let task = Task::from_line(1, "[ ] Buy milk");
    assert!(!task.done);
    assert_eq!(task.description, "Buy milk");

    let task = Task::from_line(2, "[x] Done task");
    assert!(task.done);
    assert_eq!(task.description, "Done task");
}

#[test]
fn test_task_to_line() {
    let task = Task {
        id: 1,
        description: "Test".to_string(),
        done: false,
    };
    assert_eq!(task.to_line(), "[ ] Test");

    let task = Task {
        id: 2,
        description: "Done".to_string(),
        done: true,
    };
    assert_eq!(task.to_line(), "[x] Done");
}

#[test]
fn test_parse_error_no_command() {
    let args: Vec<String> = vec![];
    assert!(Config::parse(&args).is_err());
}

#[test]
fn test_parse_error_unknown_command() {
    let args = vec!["unknown".to_string()];
    assert!(Config::parse(&args).is_err());
}

#[test]
fn config_defaults_and_errors() {
    let c = Config::parse(&args(&["add", "a", "b", "-v", "c"])).unwrap();
    assert_eq!(c.command, Command::Add("a b c".to_string()));
    assert!(c.verbose);
    assert_eq!(c.file_path, "todo.txt");
    assert_eq!(Config::parse(&args(&["-h"])).unwrap().command, Command::Help);
    assert_eq!(Config::parse(&args(&["clear", "-f", "x"])).unwrap().file_path, "x");
    assert_eq!(Config::parse(&args(&["list", "--file"])).unwrap_err(), "--file requires a path");
    assert_eq!(Config::parse(&args(&["add"])).unwrap_err(), "add requires a task description");
    assert_eq!(Config::parse(&args(&["done"])).unwrap_err(), "done requires a task ID");
    assert_eq!(Config::parse(&args(&["done", "x1"])).unwrap_err(), "Invalid task ID");
    assert_eq!(Config::parse(&args(&["frob"])).unwrap_err(), "Unknown command: frob");
    assert_eq!(Config::parse(&args(&["-v"])).unwrap_err(), "No command specified");
}

#[test]
fn usize_parsing() {
    assert_eq!(parse_usize("+42"), Some(42));
    assert_eq!(parse_usize("007"), Some(7));
    assert_eq!(parse_usize(""), None);
    assert_eq!(parse_usize("+"), None);
    assert_eq!(parse_usize("-1"), None);
    assert_eq!(parse_usize("18446744073709551616"), None);
    assert_eq!(parse_usize("18446744073709551615"), Some(usize::MAX));
}

#[test]
fn task_line_without_mark() {
    let t = Task::from_line(5, "plain");
    assert_eq!(t.id, 5);
    assert!(!t.done);
    assert_eq!(t.description, "plain");
}

#[test]
fn tasks_from_file_lines() {
    let lines = args(&["[ ] a", "   ", "[x] b", "c"]);
    let tasks = tasks_from_lines(&lines);
    assert_eq!(tasks.len(), 3);
    assert_eq!((tasks[0].id, tasks[0].done, tasks[0].description.as_str()), (1, false, "a"));
    assert_eq!((tasks[1].id, tasks[1].done, tasks[1].description.as_str()), (3, true, "b"));
    assert_eq!((tasks[2].id, tasks[2].done, tasks[2].description.as_str()), (4, false, "c"));
    assert_eq!(count_done(&tasks), 1);
    assert_eq!(tasks_to_text(&tasks), "[ ] a\n[x] b\n[ ] c\n");
    assert_eq!(tasks_to_text(&Vec::new()), "\n");
}

#[test]
fn marking_and_splitting_tasks() {
    let mut tasks = tasks_from_lines(&args(&["[ ] a", "[x] b", "[ ] c"]));
    assert_eq!(mark_done(&mut tasks, 9), MarkOutcome::NotFound);
    assert_eq!(mark_done(&mut tasks, 2), MarkOutcome::AlreadyDone);
    assert_eq!(mark_done(&mut tasks, 3), MarkOutcome::Marked);
    assert!(tasks[2].done);
    let (done, open) = split_done(tasks);
    assert_eq!(done.iter().map(|t| t.id).collect::<Vec<_>>(), vec![2, 3]);
    assert_eq!(open.iter().map(|t| t.id).collect::<Vec<_>>(), vec![1]);
}
