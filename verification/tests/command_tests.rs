use whitesmith::aliases::{Aliases, AliasError};
use whitesmith::commands::{generate_command, Commands, SubCommand};

#[test]
fn generate_command_splits_executable_and_args() {
    let mut table = Aliases::new();
    table.insert("CMD", "echo");
    table.insert("X", "1");
    let sc = generate_command("{CMD} --x {X}", &table).unwrap();
    assert_eq!(sc.executable, "echo");
    assert_eq!(sc.args, vec![String::from("--x"), String::from("1")]);
}

#[test]
fn generate_command_without_args() {
    let table = Aliases::new();
    let sc = generate_command("make", &table).unwrap();
    assert_eq!(sc.executable, "make");
    assert!(sc.args.is_empty());
}

#[test]
fn generate_command_reports_cycles() {
    let mut table = Aliases::new();
    table.insert("A", "{A}x");
    let r = generate_command("{A}", &table);
    assert!(matches!(r, Err(AliasError::Cyclic)));
}

#[test]
fn generate_build_resolves_template() {
    let mut table = Aliases::new();
    table.insert("SOURCES", "/src/proj");
    let commands = Commands {
        build: String::from("cargo build --manifest-path {SOURCES}/Cargo.toml"),
        clean: String::new(),
    };
    let bc = commands.generate_build(&table).unwrap();
    assert_eq!(bc.sub_command.executable, "cargo");
    assert_eq!(
        bc.sub_command.args,
        vec![
            String::from("build"),
            String::from("--manifest-path"),
            String::from("/src/proj/Cargo.toml"),
        ]
    );
}

#[test]
fn generate_clean_empty_template_is_none() {
    let table = Aliases::new();
    let commands = Commands { build: String::from("make"), clean: String::new() };
    assert!(commands.generate_clean(&table).unwrap().is_none());
}

#[test]
fn generate_clean_with_template() {
    let table = Aliases::new();
    let commands = Commands { build: String::from("make"), clean: String::from("make clean") };
    let bc = commands.generate_clean(&table).unwrap().unwrap();
    assert_eq!(bc.sub_command.executable, "make");
    assert_eq!(bc.sub_command.args, vec![String::from("clean")]);
}

#[test]
fn generate_executable_resolves_shell_line() {
    let mut table = Aliases::new();
    table.insert("LOGS", "/var/log");
    let commands = Commands { build: String::new(), clean: String::new() };
    let cmd = String::from("solve input.cnf > {LOGS}/out.txt");
    let ec = commands.generate_executable(&table, &cmd).unwrap();
    assert_eq!(ec.bash_command, "solve input.cnf > /var/log/out.txt");
}

#[test]
fn render_short_command_joins_with_spaces() {
    let sc = SubCommand {
        executable: String::from("run"),
        args: vec![String::from("a"), String::from("b")],
    };
    assert_eq!(sc.render(), "run a b");
}

#[test]
fn render_no_args_keeps_trailing_space() {
    let sc = SubCommand { executable: String::from("make"), args: Vec::new() };
    assert_eq!(sc.render(), "make ");
}

#[test]
fn render_wraps_long_argument_lists() {
    let long_a = "a".repeat(40);
    let long_b = "b".repeat(50);
    let sc = SubCommand {
        executable: String::from("x"),
        args: vec![long_a.clone(), long_b.clone()],
    };
    let rendered = sc.render();
    let expected = format!("x {} \\\n   > {}", long_a, long_b);
    assert_eq!(rendered, expected);
}
