use pipelight::cli::{
    Cli, Commands, DisplayCommands, Logs, LogsCommands, Pipeline, Raw, Trigger, Verbosity, Watch,
};

#[test]
fn run() {
    // Define a cli struct
    let cli = Cli {
        commands: Commands::Run(Pipeline {
            name: Some("test".to_owned()),
            trigger: Trigger { attach: false, flag: None },
        }),
        raw: None,
        config: None,
        verbose: Verbosity::new(1, 0),
    };
    // print it
    let result = String::from(&cli);
    assert_eq!(result, "run test");
}

#[test]
fn logs() {
    // Define a cli struct
    let cli = Cli {
        commands: Commands::Logs(Logs {
            commands: Some(LogsCommands::Rm),
            display: DisplayCommands { json: false, name: None },
        }),
        raw: None,
        config: None,
        verbose: Verbosity::new(1, 0),
    };
    // print it
    let result = String::from(&cli);
    assert_eq!(result, "logs rm");
}

#[test]
fn verbosity() {
    // Define a cli struct
    let cli = Cli {
        commands: Commands::Logs(Logs {
            commands: Some(LogsCommands::Rm),
            display: DisplayCommands { json: false, name: None },
        }),
        raw: None,
        config: None,
        verbose: Verbosity::new(1, 0),
    };
    // print it
    let result = String::from(&cli);
    assert_eq!(result, "logs rm");
}

#[test]
fn run_with_flags() {
    let commands = Commands::Run(Pipeline {
        name: Some("test".to_owned()),
        trigger: Trigger { attach: true, flag: Some("pre-push".to_owned()) },
    });
    assert_eq!(String::from(&commands), "run test --flag pre-push --attach");
    assert_eq!(commands.to_string(), "run test --flag pre-push --attach");
}

#[test]
fn every_command_has_its_word() {
    let display = || DisplayCommands { json: true, name: Some("x".to_owned()) };
    assert_eq!(Commands::Raw(Raw { string: "echo hi".to_owned() }).to_string(), "raw echo hi");
    assert_eq!(
        Commands::Stop(Pipeline { name: None, trigger: Trigger { attach: false, flag: None } })
            .to_string(),
        "stop "
    );
    assert_eq!(
        Commands::Trigger(Trigger { attach: true, flag: Some("f".to_owned()) }).to_string(),
        "trigger  --flag f --attach"
    );
    assert_eq!(
        Commands::Logs(Logs { commands: None, display: display() }).to_string(),
        "logs "
    );
    assert_eq!(
        Commands::Logs(Logs { commands: Some(LogsCommands::Rm), display: display() }).to_string(),
        "logs rmx --json"
    );
    assert_eq!(Commands::Inspect(display()).to_string(), "inspect");
    assert_eq!(Commands::Ls(display()).to_string(), "ls");
    assert_eq!(Commands::Watch(Watch { attach: true }).to_string(), "watch");
    assert_eq!(Watch { attach: true }.to_string(), " --attach");
    assert_eq!(Watch { attach: false }.to_string(), "");
    assert_eq!(display().to_string(), "x --json");
    let v = Verbosity::new(2, 1);
    assert_eq!(v.verbose, 2);
    assert_eq!(v.quiet, 1);
}
