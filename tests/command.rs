use markdown_executor::command::ExecutionMode::{self, DelayBetweenCommands, Interactive};
use markdown_executor::command::{Command, Commands, Options, ParserError};
use markdown_executor::pattern::SkipPattern;



        #[test]
        fn parse_empty_content() {
            let content = "";
            let options = Options::new(content);
            let parsed = Commands::parse(&options);
            let expected = ok_empty();
            assert_eq!(expected, parsed);
        }

        #[test]
        fn parse_content_without_commands() {
            let content = r#"# README

No commands here!!
"#;

            let options = Options::new(content);
            let parsed = Commands::parse(&options);
            let expected = ok_empty();
            assert_eq!(expected, parsed);
        }

        #[test]
        fn parse_content_with_one_single_line_command() {
            let content = r#"# README

Before command

```shell
$ ls -la
```

After command
"#;

            let options = Options::new(content);
            let parsed = Commands::parse(&options);
            let expected = ok_of_strs(vec!["ls -la"], ExecutionMode::Default);
            assert_eq!(expected, parsed);
        }

        #[test]
        fn parse_content_with_multiple_single_line_command() {
            let content = r#"# README

```shell
$ echo "Hello"
```

```shell
$ ls -la
```

```shell
$ echo "Goodbye"
```
"#;

            let options = Options::new(content);
            let parsed = Commands::parse(&options);
            let expected = ok_of_strs(
                vec!["echo \"Hello\"", "ls -la", "echo \"Goodbye\""],
                ExecutionMode::Default,
            );
            assert_eq!(expected, parsed);
        }

        #[test]
        fn parse_content_with_different_indentation() {
            let content = r#"# README

```shell
$ echo "Hello"
```

- `ls` command

  ```shell
  $ ls -la
  ```

  1. `echo` command

     ```shell
     $ echo "Goodbye"
     ```
"#;

            let options = Options::new(content);
            let parsed = Commands::parse(&options);
            let expected = ok_of_strs(
                vec!["echo \"Hello\"", "ls -la", "echo \"Goodbye\""],
                ExecutionMode::Default,
            );
            assert_eq!(expected, parsed);
        }

        #[test]
        fn parse_content_with_one_multi_line_command_backslash() {
            let content = r#"# README

```shell
$ java \
  -jar target/app.jar
```
"#;

            let options = Options::new(content);
            let parsed = Commands::parse(&options);
            let expected = Ok(Commands::new(vec![Command::new(vec!["java \\", "  -jar target/app.jar"])], ExecutionMode::Default));
            assert_eq!(expected, parsed);
        }

        #[test]
        fn parse_content_with_one_multi_line_command_here_document_without_indentation() {
            let content = r#"# README

```shell
$ patch -p1 -u './Test.java' << EOF
--- ./Test.java
+++ ./Test.java
@@ -1,3 +1,2 @@
 package demo;

 -import java.io.Console;
EOF
```
"#;

            let options = Options::new(content);
            let parsed = Commands::parse(&options);
            let expected = Ok(Commands::new(vec![Command::new(vec![
                        "patch -p1 -u './Test.java' << EOF",
                        "--- ./Test.java",
                        "+++ ./Test.java",
                        "@@ -1,3 +1,2 @@",
                        " package demo;",
                        "",
                        " -import java.io.Console;",
                        "EOF",
                    ])], ExecutionMode::Default));
            assert_eq!(expected, parsed);
        }

        #[test]
        fn parse_content_with_one_multi_line_command_here_document_with_indentation() {
            let content = r#"# README

- Step 1

  ```shell
  $ patch -p1 -u './Test.java' << EOF
  --- ./Test.java
  +++ ./Test.java
  @@ -1,3 +1,2 @@
   package demo;

   -import java.io.Console;
  EOF
  ```
"#;

            let options = Options::new(content);
            let parsed = Commands::parse(&options);
            let expected = Ok(Commands::new(vec![Command::new(vec![
                        "patch -p1 -u './Test.java' << EOF",
                        "--- ./Test.java",
                        "+++ ./Test.java",
                        "@@ -1,3 +1,2 @@",
                        " package demo;",
                        "",
                        " -import java.io.Console;",
                        "EOF",
                    ])], ExecutionMode::Default));
            assert_eq!(expected, parsed);
        }

        #[test]
        fn parse_content_with_multiple_single_line_commands() {
            let content = r#"# README

```shell
$ echo "Line 1"
$ echo "Line 2"
$ echo "Line 3"
```
"#;

            let options = Options::new(content);
            let parsed = Commands::parse(&options);
            let expected = ok_of_strs(
                vec!["echo \"Line 1\"", "echo \"Line 2\"", "echo \"Line 3\""],
                ExecutionMode::Default,
            );
            assert_eq!(expected, parsed);
        }

        #[test]
        fn parse_content_with_multiple_multi_line_commands() {
            let content = r#"# README

```shell
$ echo "Before"
$ java \
  -jar target/app-1.jar
$ java \
  -jar target/app-2.jar
$ echo "After"
```
"#;

            let options = Options::new(content);
            let parsed = Commands::parse(&options);
            let expected = Ok(Commands::new(vec![
                    Command::new(vec!["echo \"Before\""]),
                    Command::new(vec!["java \\", "  -jar target/app-1.jar"]),
                    Command::new(vec!["java \\", "  -jar target/app-2.jar"]),
                    Command::new(vec!["echo \"After\""]),
                ], ExecutionMode::Default));
            assert_eq!(expected, parsed);
        }

        #[test]
        fn parse_content_execute_from() {
            let content = r#"# README

```shell
$ echo "Line 1"
$ echo "Line 2"
$ echo "Line 3"
```
"#;

            let options = Options::new(content).with_execute_from(Some("$ echo \"Line 2\""));
            let parsed = Commands::parse(&options);
            let expected = ok_of_strs(vec!["echo \"Line 2\"", "echo \"Line 3\""], ExecutionMode::Default);
            assert_eq!(expected, parsed);
        }

        #[test]
        fn parse_content_execute_from_when_no_lines_match() {
            let content = r#"# README

```shell
$ echo "Line 1"
$ echo "Line 2"
$ echo "Line 3"
```
"#;

            let from_line = "$ echo \"Line x\"";
            let options = Options::new(content).with_execute_from(Some(from_line));
            let parsed = Commands::parse(&options);
            let expected =
                ParserError::err(format!("No line matched the execute from: '{}'", from_line));
            assert_eq!(expected, parsed);
        }

        #[test]
        fn parse_content_execute_until() {
            let content = r#"# README

```shell
$ echo "Line 1"
$ echo "Line 2"
$ echo "Line 3"
```
"#;

            let options = Options::new(content).with_execute_until(Some("$ echo \"Line 2\""));
            let parsed = Commands::parse(&options);
            let expected = ok_of_strs(vec!["echo \"Line 1\"", "echo \"Line 2\""], ExecutionMode::Default);
            assert_eq!(expected, parsed);
        }

        #[test]
        fn parse_content_execute_until_when_no_lines_match() {
            let content = r#"# README

```shell
$ echo "Line 1"
$ echo "Line 2"
$ echo "Line 3"
```
"#;

            let until_line = "$ echo \"Line x\"";
            let options = Options::new(content).with_execute_until(Some(until_line));
            let parsed = Commands::parse(&options);
            let expected = ParserError::err(format!(
                "No line matched the execute until: '{}'",
                until_line
            ));
            assert_eq!(expected, parsed);
        }

        #[test]
        fn parse_content_execute_from_and_until() {
            let content = r#"# README

```shell
$ echo "Line 1"
$ echo "Line 2"
$ echo "Line 3"
$ echo "Line 4"
```
"#;

            let options = Options::new(content)
                .with_execute_from(Some("$ echo \"Line 2\""))
                .with_execute_until(Some("$ echo \"Line 3\""));
            let parsed = Commands::parse(&options);
            let expected = ok_of_strs(vec!["echo \"Line 2\"", "echo \"Line 3\""], ExecutionMode::Default);
            assert_eq!(expected, parsed);
        }

        #[test]
        fn parse_content_execute_from_and_until_same_line() {
            let content = r#"# README

```shell
$ echo "Line 1"
```
"#;

            let options = Options::new(content)
                .with_execute_from(Some("$ echo \"Line 1\""))
                .with_execute_until(Some("$ echo \"Line 1\""));
            let parsed = Commands::parse(&options);
            let expected = ok_of_strs(vec!["echo \"Line 1\""], ExecutionMode::Default);
            assert_eq!(expected, parsed);
        }

        #[test]
        fn parse_content_execute_from_and_until_when_no_lines_match_until() {
            let content = r#"# README

```shell
$ echo "Line 1"
$ echo "Line 2"
$ echo "Line 3"
$ echo "Line 4"
```
"#;

            let from_line = "$ echo \"Line 2\"";
            let until_line = "$ echo \"Line 1\"";
            let options = Options::new(content)
                .with_execute_from(Some(from_line))
                .with_execute_until(Some(until_line));
            let parsed = Commands::parse(&options);
            let expected = ParserError::err(format!(
                "No line matched the execute until: '{}' after the execute from: '{}'",
                until_line, from_line
            ));
            assert_eq!(expected, parsed);
        }

        #[test]
        fn parse_content_execute_from_and_until_when_until_also_exists_before_from() {
            let content = r#"# README

```shell
$ echo "Line 2"
$ echo "Line 1"
$ echo "Line 2"
$ echo "Line 3"
```
"#;

            let options = Options::new(content)
                .with_execute_from(Some("$ echo \"Line 1\""))
                .with_execute_until(Some("$ echo \"Line 2\""));
            let parsed = Commands::parse(&options);
            let expected = ok_of_strs(vec!["echo \"Line 1\"", "echo \"Line 2\""], ExecutionMode::Default);
            assert_eq!(expected, parsed);
        }

        #[test]
        fn parse_content_skip_commands() {
            let content = r#"# README

```shell
$ echo "Line 1"
$ echo "Hello there"
$ echo "Line 2"
$ echo "Line 3"
```
"#;

            let skip_commands = SkipPattern::new(r"Line \d").expect("Invalid skip commands regex");
            let options = Options::new(content).with_skip_commands(Some(&skip_commands));
            let parsed = Commands::parse(&options);
            let expected = ok_of_strs(vec!["echo \"Hello there\""], ExecutionMode::Default);
            assert_eq!(expected, parsed);
        }


        #[test]
        fn format_empty_command() {
            let commands = empty();
            let formatted = commands.to_string();
            let expected = "";
            assert_eq!(expected, formatted);
        }

        #[test]
        fn format_one_single_line_command() {
            let commands = of_strs(vec!["ls -la"], ExecutionMode::Default);
            let formatted = commands.to_string();
            let expected = r#"ls -la
"#;
            assert_eq!(expected, formatted);
        }

        #[test]
        fn format_multiple_single_line_command() {
            let commands = of_strs(
                vec!["echo \"Hello\"", "ls -la", "echo \"Goodbye\""],
                ExecutionMode::Default,
            );
            let formatted = commands.to_string();
            let expected = r#"echo "Hello"
ls -la
echo "Goodbye"
"#;
            assert_eq!(expected, formatted);
        }

        #[test]
        fn format_one_multi_line_command() {
            let commands = Commands::new(vec![Command::new(vec!["java \\", " -jar target/app.jar"])], ExecutionMode::Default);
            let formatted = commands.to_string();
            let expected = r#"java \
 -jar target/app.jar
"#;
            assert_eq!(expected, formatted);
        }

        #[test]
        fn format_multiple_single_line_commands() {
            let commands = of_strs(
                vec!["echo \"Line 1\"", "echo \"Line 2\"", "echo \"Line 3\""],
                ExecutionMode::Default,
            );
            let formatted = commands.to_string();
            let expected = r#"echo "Line 1"
echo "Line 2"
echo "Line 3"
"#;
            assert_eq!(expected, formatted);
        }

        #[test]
        fn format_multiple_multi_line_commands() {
            let commands = Commands::new(vec![
                    Command::new(vec!["echo \"Before\""]),
                    Command::new(vec!["java \\", " -jar target/app-1.jar"]),
                    Command::new(vec!["java \\", " -jar target/app-2.jar"]),
                    Command::new(vec!["echo \"After\""]),
                ], ExecutionMode::Default);
            let formatted = commands.to_string();
            let expected = r#"echo "Before"
java \
 -jar target/app-1.jar
java \
 -jar target/app-2.jar
echo "After"
"#;
            assert_eq!(expected, formatted);
        }

        #[test]
        fn format_as_shell_script_with_default_execution() {
            let commands = of_strs(
                vec![
                    "echo \"Before\"",
                    "java -jar target/app-1.jar",
                    "java -jar target/app-2.jar",
                    "echo \"After\"",
                ],
                ExecutionMode::Default,
            );
            let formatted = commands.as_shell_script();
            let expected = r#"#!/bin/sh

# Generated by the MARKDOWN executor
# This file is automatically deleted once the execution completes

set -e

echo "Before"
java -jar target/app-1.jar
java -jar target/app-2.jar
echo "After"
"#;
            assert_eq!(expected, formatted);
        }

        #[test]
        fn format_as_shell_script_with_delay_between_commands_execution() {
            let commands = of_strs(
                vec!["echo \"Line 1\"", "echo \"Line 2\"", "echo \"Line 3\""],
                DelayBetweenCommands(100),
            );

            let formatted = commands.as_shell_script();
            let expected = r#"#!/bin/sh

# Generated by the MARKDOWN executor
# This file is automatically deleted once the execution completes

set -e

echo "Line 1"
sleep 100
echo "Line 2"
sleep 100
echo "Line 3"
"#;

            assert_eq!(expected, formatted);
        }

        #[test]
        fn format_as_shell_script_with_interactive_execution() {
            let commands = of_strs(
                vec!["echo \"Line 1\"", "echo \"Line 2\"", "echo \"Line 3\""],
                Interactive,
            );

            let formatted = commands.as_shell_script();
            let expected = r#"#!/bin/sh

# Generated by the MARKDOWN executor
# This file is automatically deleted once the execution completes

set -e

# When set to true, it will execute the remaining commands without interaction
EXECUTE_ALL=false

# Confirms before executing each command.  The command can be skipped and the script exited.
interactive_0() {

  if [ "${EXECUTE_ALL}" != true ]; then
    echo '\033[0;02m--------------------------------------------------\033[0m'
    echo '\033[0;94m>\033[0m \033[0;92mecho "Line 1"\033[0m'
    echo '\033[0;02m--------------------------------------------------'
    read -r -p 'Press enter to execute,
 A to execute all the remaining commands,
 S to skip and
 X to exit ' input
    echo '--------------------------------------------------\033[0m'

    case ${input} in
      [sS] ) return;;
      [xX] ) exit 0;;
      [aA] ) EXECUTE_ALL=true;
        ;;
      * )
        ;;
    esac
  fi

  # Execute the command
  echo "Line 1"
}

interactive_0


# Confirms before executing each command.  The command can be skipped and the script exited.
interactive_1() {

  if [ "${EXECUTE_ALL}" != true ]; then
    echo '\033[0;02m--------------------------------------------------\033[0m'
    echo '\033[0;94m>\033[0m \033[0;92mecho "Line 2"\033[0m'
    echo '\033[0;02m--------------------------------------------------'
    read -r -p 'Press enter to execute,
 A to execute all the remaining commands,
 S to skip and
 X to exit ' input
    echo '--------------------------------------------------\033[0m'

    case ${input} in
      [sS] ) return;;
      [xX] ) exit 0;;
      [aA] ) EXECUTE_ALL=true;
        ;;
      * )
        ;;
    esac
  fi

  # Execute the command
  echo "Line 2"
}

interactive_1


# Confirms before executing each command.  The command can be skipped and the script exited.
interactive_2() {

  if [ "${EXECUTE_ALL}" != true ]; then
    echo '\033[0;02m--------------------------------------------------\033[0m'
    echo '\033[0;94m>\033[0m \033[0;92mecho "Line 3"\033[0m'
    echo '\033[0;02m--------------------------------------------------'
    read -r -p 'Press enter to execute,
 A to execute all the remaining commands,
 S to skip and
 X to exit ' input
    echo '--------------------------------------------------\033[0m'

    case ${input} in
      [sS] ) return;;
      [xX] ) exit 0;;
      [aA] ) EXECUTE_ALL=true;
        ;;
      * )
        ;;
    esac
  fi

  # Execute the command
  echo "Line 3"
}

interactive_2


"#;

            assert_eq!(expected, formatted);
        }

fn ok_empty() -> Result<Commands<'static>, ParserError> {
    Ok(empty())
}

fn ok_of_strs(
    commands: Vec<&str>,
    execution_mode: ExecutionMode,
) -> Result<Commands<'_>, ParserError> {
    Ok(of_strs(commands, execution_mode))
}

fn empty() -> Commands<'static> {
    Commands::new(vec![], ExecutionMode::Default)
}

fn of_strs(commands: Vec<&str>, execution_mode: ExecutionMode) -> Commands<'_> {
    let commands = commands
        .iter()
        .map(|command| Command::new(vec![*command]))
        .collect();
    Commands::new(commands, execution_mode)
}
