use zhtta::args::{choose_settings, get_args, usage, Arguments, Given, GivenOptions, Settings};

fn args(list: &[&str]) -> Arguments {
    get_args(&list.iter().map(|s| s.to_string()).collect())
}

fn run(arguments: Arguments) -> Settings {
    match arguments {
        Arguments::Run(settings) => settings,
        other => panic!("{:?}", other),
    }
}

fn fail(arguments: Arguments) -> String {
    match arguments {
        Arguments::Fail(message) => message,
        other => panic!("{:?}", other),
    }
}

fn absent() -> Given {
    Given { present: false, value: None }
}

fn nothing_given() -> GivenOptions {
    GivenOptions {
        ip: absent(),
        port: absent(),
        www: absent(),
        task: absent(),
        cache: absent(),
        h: false,
        help: false,
    }
}

#[test]
fn without_arguments_the_defaults_hold() {
    let settings = run(args(&["zhtta"]));
    assert_eq!(settings.ip, "127.0.0.1");
    assert_eq!(settings.port, 4414);
    assert_eq!(settings.www_dir, "./www");
    assert_eq!(settings.tasks, 8);
    assert_eq!(settings.cache, 2);
}

#[test]
fn every_option_can_be_given() {
    let settings = run(args(&[
        "zhtta", "--ip", "0.0.0.0", "--port=80", "--www", "/srv", "--task", "-4", "--cache", "16",
    ]));
    assert_eq!(settings.ip, "0.0.0.0");
    assert_eq!(settings.port, 80);
    assert_eq!(settings.www_dir, "/srv");
    assert_eq!(settings.tasks, -4);
    assert_eq!(settings.cache, 16);
}

#[test]
fn both_help_options_print_the_usage() {
    for flag in ["-h", "--help"] {
        match args(&["zhtta", "--port", "x", flag]) {
            Arguments::Usage(text) => assert_eq!(text, usage("zhtta")),
            other => panic!("{:?}", other),
        }
    }
}

#[test]
fn the_usage_names_every_option_and_default() {
    assert_eq!(
        usage("zhtta"),
        "Usage: zhtta [options]\n\
--ip     \tIP address, \"127.0.0.1\" by default.\n\
--port   \tport number, \"4414\" by default.\n\
--www    \tworking directory, \"./www\" by default.\n\
--task   \tnumber of tasks for handling requests, \"8\" by default.\n\
--cache  \tsize of cache in MB for pages, \"2\" by default.\n\
-h --help \tUsage\n"
    );
}

#[test]
fn numbers_have_to_be_numbers() {
    assert_eq!(fail(args(&["zhtta", "--port", "http"])), "not uint?");
    assert_eq!(fail(args(&["zhtta", "--task", "1.5"])), "not uint?");
    assert_eq!(fail(args(&["zhtta", "--cache", "-1"])), "not uint?");
}

#[test]
fn wrong_arguments_are_explained() {
    assert_eq!(fail(args(&["zhtta", "--verbose"])), "Unrecognized option: 'verbose'");
    assert_eq!(fail(args(&["zhtta", "--ip"])), "Argument to option 'ip' missing");
    assert_eq!(
        fail(args(&["zhtta", "--port", "1", "--port", "2"])),
        "Option 'port' given more than once"
    );
    assert_eq!(fail(args(&["zhtta", "--help=x"])), "Option 'help' does not take an argument");
}

#[test]
fn an_option_without_its_value_is_named() {
    let missing = || Given { present: true, value: None };
    let given = GivenOptions { ip: missing(), port: missing(), ..nothing_given() };
    assert_eq!(fail(choose_settings("zhtta", &given)), "invalid ip address?");
    let given = GivenOptions { port: missing(), www: missing(), ..nothing_given() };
    assert_eq!(fail(choose_settings("zhtta", &given)), "invalid port number?");
    let given = GivenOptions { www: missing(), task: missing(), ..nothing_given() };
    assert_eq!(fail(choose_settings("zhtta", &given)), "invalid www argument?");
    let given = GivenOptions { task: missing(), cache: missing(), ..nothing_given() };
    assert_eq!(fail(choose_settings("zhtta", &given)), "invalid task number?");
    let given = GivenOptions { cache: missing(), ..nothing_given() };
    assert_eq!(fail(choose_settings("zhtta", &given)), "invalid cache size?");
}

#[test]
fn free_arguments_are_passed_over() {
    assert_eq!(run(args(&["zhtta", "free", "--port", "81", "more"])).port, 81);
}
