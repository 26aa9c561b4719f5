use nal::repl::{is_script_command, Action, ReplConsole, ReplInstruction, HELP_MSG};

#[test]
fn repl_console_test_new() {
    let repl = ReplConsole::new();
    assert_eq!(repl.counter(), 0);
    assert_eq!(repl.experience_base().experiences().len(), 0);
}

#[test]
fn repl_console_test_execute_help() {
    let mut repl = ReplConsole::new();
    let action = repl.execute("/help", 0).unwrap();
    let expected_output = HELP_MSG;
    assert_eq!(action, Action::Print(expected_output.to_string()));
}

#[test]
fn repl_console_test_execute_exit() {
    let mut repl = ReplConsole::new();
    let action = repl.execute("/exit", 0).unwrap();
    assert_eq!(action, Action::Exit());
}

#[test]
fn repl_console_test_execute_assert() {
    let mut repl = ReplConsole::new();
    let action = repl.execute("/assert a is b", 0).unwrap();
    assert_eq!(action, Action::Print("Ok.".to_string()));
    assert_eq!(repl.experience_base().experiences().len(), 1);
    assert_eq!(repl.experience_base().experiences()[0].to_string(), "1: a -> b <1.00, 0.99>");

    let action = repl.execute("/assert c is d <0.787, 0.5678>", 0).unwrap();
    assert_eq!(action, Action::Print("Ok.".to_string()));
    assert_eq!(repl.experience_base().experiences().len(), 2);
    assert_eq!(repl.experience_base().experiences()[1].to_string(), "2: c -> d <0.79, 0.57>");
}

#[test]
fn repl_console_test_execute_remove() {
    let mut repl = ReplConsole::new();
    let action = repl.execute("/assert a is b", 0).unwrap();
    assert_eq!(action, Action::Print("Ok.".to_string()));
    assert_eq!(repl.experience_base().experiences().len(), 1);
    assert_eq!(repl.experience_base().experiences()[0].stmt.to_string(), "a -> b");

    let action = repl.execute("/remove 1", 0).unwrap();
    assert_eq!(action, Action::Print("Ok.".to_string()));
    assert_eq!(repl.experience_base().experiences().len(), 0);
}

#[test]
fn repl_console_test_execute_list() {
    let mut repl = ReplConsole::new();
    let action = repl.execute("/assert a is b", 0).unwrap();
    assert_eq!(action, Action::Print("Ok.".to_string()));
    let action = repl.execute("/assert b is c", 0).unwrap();
    assert_eq!(action, Action::Print("Ok.".to_string()));
    assert_eq!(repl.experience_base().experiences().len(), 2);
    assert_eq!(repl.experience_base().experiences()[0].stmt.to_string(), "a -> b");
    assert_eq!(repl.experience_base().experiences()[1].stmt.to_string(), "b -> c");

    let action = repl.execute("/list", 0).unwrap();
    let expected_output = "1: a -> b <1.00, 0.99>\n2: b -> c <1.00, 0.99>";
    assert_eq!(action, Action::Print(expected_output.to_string()));
}

#[test]
fn repl_console_test_execute_query() {
    let mut repl = ReplConsole::new();
    let action = repl.execute("/assert a is b", 0).unwrap();
    assert_eq!(action, Action::Print("Ok.".to_string()));
    let action = repl.execute("/assert b is c", 0).unwrap();
    assert_eq!(action, Action::Print("Ok.".to_string()));
    assert_eq!(repl.experience_base().experiences().len(), 2);
    assert_eq!(repl.experience_base().experiences()[0].stmt.to_string(), "a -> b");
    assert_eq!(repl.experience_base().experiences()[1].stmt.to_string(), "b -> c");

    let action = repl.execute("/query a is ?", 0).unwrap();
    assert_eq!(action, Action::Print("  1: a -> b <1.00, 0.99>".to_string()));

    let action = repl.execute("/query ? is c", 0).unwrap();
    assert_eq!(action, Action::Print("  2: b -> c <1.00, 0.99>".to_string()));

    let action = repl.execute("/query a is b", 0).unwrap();
    assert_eq!(action, Action::Print("  1: a -> b <1.00, 0.99>".to_string()));

    let action = repl.execute("/query a is c", 0).unwrap();
    assert_eq!(action, Action::Print("  a -> c <0.50, 0.80>".to_string()));

    let action = repl.execute("/query ? is ?", 0);
    assert_eq!(action.is_err(), true);
}

#[test]
fn repl_console_test_execute_clear() {
    let mut repl = ReplConsole::new();
    let action = repl.execute("/assert a is b", 0).unwrap();
    assert_eq!(action, Action::Print("Ok.".to_string()));
    let action = repl.execute("/assert b is c", 0).unwrap();
    assert_eq!(action, Action::Print("Ok.".to_string()));
    assert_eq!(repl.experience_base().experiences().len(), 2);
    assert_eq!(repl.experience_base().experiences()[0].stmt.to_string(), "a -> b");
    assert_eq!(repl.experience_base().experiences()[1].stmt.to_string(), "b -> c");

    let action = repl.execute("/clear", 0).unwrap();
    assert_eq!(action, Action::Print("Ok.".to_string()));
    assert_eq!(repl.experience_base().experiences().len(), 0);
}

#[test]
fn test_execute_infer_deduction() {
    let mut repl = ReplConsole::new();
    repl.execute("/assert a is b", 0).unwrap();
    repl.execute("/assert b is c", 0).unwrap();
    repl.execute("/assert c is d", 0).unwrap();

    let action = repl.execute("/infer deduction 1 2", 0).unwrap();
    let expected_output =
        "  1: a -> b <1.00, 0.99>\n  2: b -> c <1.00, 0.99>\n  RESULT: a -> c <1.00, 0.98>";
    assert_eq!(action, Action::Print(expected_output.to_string()));
}

#[test]
fn console_other_commands() {
    let mut repl = ReplConsole::new();
    assert_eq!(repl.execute("/dance", 0).unwrap(), Action::Print("Unknown command.".to_string()));
    assert_eq!(repl.execute("", 0).unwrap(), Action::Print("Unknown command.".to_string()));
    assert_eq!(repl.execute("/f script.nal", 0).unwrap(), Action::Load("script.nal".to_string()));
    assert_eq!(
        repl.execute("/r x", 0).unwrap(),
        Action::Print("Invalid id: Expected a number".to_string())
    );
    assert_eq!(repl.execute("/remove 4", 0).unwrap_err(), "Experience id not found.");
    assert_eq!(
        repl.execute("/a a is", 0).unwrap_err(),
        "Invalid statement: Expected <term> <copula> <term>"
    );
    assert_eq!(repl.execute("/a a was b", 0).unwrap_err(), "Invalid copula");
    assert_eq!(repl.execute("/a a is b <2, 0.5>", 0).unwrap(), Action::Print("Ok.".to_string()));
    assert_eq!(repl.experience_base().experiences()[0].to_string(), "1: a -> b <1.00, 0.99>");
    assert_eq!(repl.execute("/i nothing 1 2", 0).unwrap_err(), "Invalid inference instruction");
    assert_eq!(repl.execute("/i d 1 5", 0).unwrap_err(), "Experience 2 not found.");
    repl.execute("/a b is c", 0).unwrap();
    assert_eq!(repl.execute("/i+ d 1 2", 0).unwrap(), Action::Print(
        "  1: a -> b <1.00, 0.99>\n  2: b -> c <1.00, 0.99>\n  RESULT: a -> c <1.00, 0.98>".to_string()
    ));
    assert_eq!(repl.execute("/l", 0).unwrap(), Action::Print(
        "1: a -> b <1.00, 0.99>\n2: b -> c <1.00, 0.99>\n3: a -> c <1.00, 0.98>".to_string()
    ));
    assert_eq!(repl.prompt(), "1>> ");
    assert_eq!(repl.prompt(), "2>> ");
    assert_eq!(repl.counter(), 2);
}

#[test]
fn script_lines() {
    assert!(is_script_command("/assert a is b"));
    assert!(!is_script_command("# a comment"));
    assert!(!is_script_command(""));
}

#[test]
fn test_new_help() {
    assert_eq!(ReplInstruction::new(&vec!["/help".to_string()]).unwrap(), ReplInstruction::Help());
    assert_eq!(ReplInstruction::new(&vec!["/h".to_string()]).unwrap(), ReplInstruction::Help());
}

#[test]
fn test_new_exit() {
    assert_eq!(ReplInstruction::new(&vec!["/exit".to_string()]).unwrap(), ReplInstruction::Exit());
    assert_eq!(ReplInstruction::new(&vec!["/e".to_string()]).unwrap(), ReplInstruction::Exit());
}

#[test]
fn test_new_list() {
    assert_eq!(ReplInstruction::new(&vec!["/list".to_string()]).unwrap(), ReplInstruction::List());
    assert_eq!(ReplInstruction::new(&vec!["/l".to_string()]).unwrap(), ReplInstruction::List());
}

#[test]
fn test_new_assert() {
    assert_eq!(
        ReplInstruction::new(&vec!["/assert".to_string(), "something".to_string()]).unwrap(),
        ReplInstruction::Assert(vec!["something".to_string()])
    );
    assert_eq!(
        ReplInstruction::new(&vec!["/a".to_string(), "something".to_string()]).unwrap(),
        ReplInstruction::Assert(vec!["something".to_string()])
    );
}

#[test]
fn test_new_clear() {
    assert_eq!(ReplInstruction::new(&vec!["/clear".to_string()]).unwrap(), ReplInstruction::Clear());
    assert_eq!(ReplInstruction::new(&vec!["/c".to_string()]).unwrap(), ReplInstruction::Clear());
}

#[test]
fn test_new_remove() {
    assert_eq!(
        ReplInstruction::new(&vec!["/remove".to_string(), "1".to_string()]).unwrap(),
        ReplInstruction::Remove(1)
    );
    assert_eq!(
        ReplInstruction::new(&vec!["/r".to_string(), "1".to_string()]).unwrap(),
        ReplInstruction::Remove(1)
    );
    assert_eq!(
        ReplInstruction::new(&vec!["/r".to_string(), "j".to_string()]).unwrap_err().message(),
        "Invalid id: Expected a number"
    );
}

#[test]
fn test_new_query() {
    assert_eq!(
        ReplInstruction::new(&vec!["/query".to_string(), "something".to_string()]).unwrap(),
        ReplInstruction::Query(vec!["something".to_string()])
    );
    assert_eq!(
        ReplInstruction::new(&vec!["/q".to_string(), "something".to_string()]).unwrap(),
        ReplInstruction::Query(vec!["something".to_string()])
    );
}

#[test]
fn test_new_infer() {
    assert_eq!(
        ReplInstruction::new(&vec!["/infer".to_string(), "something".to_string()]).unwrap(),
        ReplInstruction::Infer(vec!["something".to_string()])
    );
    assert_eq!(
        ReplInstruction::new(&vec!["/i".to_string(), "something".to_string()]).unwrap(),
        ReplInstruction::Infer(vec!["something".to_string()])
    );
}
