//! The arguments of the program.

use vstd::prelude::*;

use crate::outside;
use crate::outside::{
    declare_flag, declare_option, is_given, new_options, parse_arguments, value_of,
};
use crate::text;
use crate::text::{decimal, parse_isize, parse_usize};

verus! {

/// The address to listen on, if none is given.
pub const IP: &'static str = "127.0.0.1";

/// The port to listen on, if none is given.
pub const PORT: usize = 4414;

/// The directory to serve, if none is given.
pub const WWW_DIR: &'static str = "./www";

/// How many permits there are for tasks that serve static files, if no number is given.
pub const TASKS: isize = 8;

/// The size of the cache, if none is given.
pub const CACHE: usize = 2;

/// What the program is asked to do.
#[derive(Debug)]
pub struct Settings {
    pub ip: String,
    pub port: usize,
    pub www_dir: String,
    pub tasks: isize,
    pub cache: usize,
}

/// What `Settings` hold.
pub struct SettingsView {
    pub ip: Seq<char>,
    pub port: usize,
    pub www_dir: Seq<char>,
    pub tasks: isize,
    pub cache: usize,
}

impl View for Settings {
    type V = SettingsView;

    open spec fn view(&self) -> SettingsView {
        SettingsView {
            ip: self.ip@,
            port: self.port,
            www_dir: self.www_dir@,
            tasks: self.tasks,
            cache: self.cache,
        }
    }
}

/// What the arguments of the program come to.
#[derive(Debug)]
pub enum Arguments {
    /// Run the server.
    Run(Settings),
    /// Print how the program is used, and end it.
    Usage(String),
    /// End the program with a message.
    Fail(String),
}

/// What `Arguments` hold.
pub enum ArgumentsView {
    Run(SettingsView),
    Usage(Seq<char>),
    Fail(Seq<char>),
}

impl View for Arguments {
    type V = ArgumentsView;

    open spec fn view(&self) -> ArgumentsView {
        match *self {
            Arguments::Run(settings) => ArgumentsView::Run(settings@),
            Arguments::Usage(usage) => ArgumentsView::Usage(usage@),
            Arguments::Fail(message) => ArgumentsView::Fail(message@),
        }
    }
}

/// An option with a value: whether it was given, and the value.
pub struct Given {
    pub present: bool,
    pub value: Option<String>,
}

/// What a `Given` holds.
pub struct GivenView {
    pub present: bool,
    pub value: Option<Seq<char>>,
}

impl View for Given {
    type V = GivenView;

    open spec fn view(&self) -> GivenView {
        GivenView { present: self.present, value: text::option_view(self.value) }
    }
}

/// The options of the program.
pub struct GivenOptions {
    pub ip: Given,
    pub port: Given,
    pub www: Given,
    pub task: Given,
    pub cache: Given,
    pub h: bool,
    pub help: bool,
}

/// What `GivenOptions` hold.
pub struct GivenOptionsView {
    pub ip: GivenView,
    pub port: GivenView,
    pub www: GivenView,
    pub task: GivenView,
    pub cache: GivenView,
    pub h: bool,
    pub help: bool,
}

impl View for GivenOptions {
    type V = GivenOptionsView;

    open spec fn view(&self) -> GivenOptionsView {
        GivenOptionsView {
            ip: self.ip@,
            port: self.port@,
            www: self.www@,
            task: self.task@,
            cache: self.cache@,
            h: self.h,
            help: self.help,
        }
    }
}

/// The text that an option comes to: its value, or the default if it was not given.
pub open spec fn text_option(given: GivenView, default: Seq<char>, complaint: Seq<char>) -> Result<
    Seq<char>,
    Seq<char>,
> {
    if !given.present {
        Ok(default)
    } else {
        match given.value {
            Some(value) => Ok(value),
            None => Err(complaint),
        }
    }
}

/// The number that an option comes to: its value, or the default if it was not given.
pub open spec fn usize_option(given: GivenView, default: usize, complaint: Seq<char>) -> Result<
    usize,
    Seq<char>,
> {
    if !given.present {
        Ok(default)
    } else {
        match given.value {
            Some(value) => match text::parse_usize_spec(value) {
                Some(n) => Ok(n),
                None => Err("not uint?"@),
            },
            None => Err(complaint),
        }
    }
}

/// The signed number that an option comes to: its value, or the default if it was not given.
pub open spec fn isize_option(given: GivenView, default: isize, complaint: Seq<char>) -> Result<
    isize,
    Seq<char>,
> {
    if !given.present {
        Ok(default)
    } else {
        match given.value {
            Some(value) => match text::parse_isize_spec(value) {
                Some(n) => Ok(n),
                None => Err("not uint?"@),
            },
            None => Err(complaint),
        }
    }
}

/// How the program is used.
pub open spec fn usage_spec(program: Seq<char>) -> Seq<char> {
    "Usage: "@ + program + " [options]\n"@ + "--ip     \tIP address, \""@ + IP@
        + "\" by default.\n"@ + "--port   \tport number, \""@ + text::decimal_spec(PORT as nat)
        + "\" by default.\n"@ + "--www    \tworking directory, \""@ + WWW_DIR@
        + "\" by default.\n"@ + "--task   \tnumber of tasks for handling requests, \""@
        + text::decimal_spec(TASKS as nat) + "\" by default.\n"@
        + "--cache  \tsize of cache in MB for pages, \""@ + text::decimal_spec(CACHE as nat)
        + "\" by default.\n"@ + "-h --help \tUsage\n"@
}

/// What the options of the program come to. The first option that is wrong decides the message.
pub open spec fn arguments_spec(program: Seq<char>, given: GivenOptionsView) -> ArgumentsView {
    let ip = text_option(given.ip, IP@, "invalid ip address?"@);
    let port = usize_option(given.port, PORT, "invalid port number?"@);
    let www_dir = text_option(given.www, WWW_DIR@, "invalid www argument?"@);
    let tasks = isize_option(given.task, TASKS, "invalid task number?"@);
    let cache = usize_option(given.cache, CACHE, "invalid cache size?"@);
    if given.h || given.help {
        ArgumentsView::Usage(usage_spec(program))
    } else if ip is Err {
        ArgumentsView::Fail(ip->Err_0)
    } else if port is Err {
        ArgumentsView::Fail(port->Err_0)
    } else if www_dir is Err {
        ArgumentsView::Fail(www_dir->Err_0)
    } else if tasks is Err {
        ArgumentsView::Fail(tasks->Err_0)
    } else if cache is Err {
        ArgumentsView::Fail(cache->Err_0)
    } else {
        ArgumentsView::Run(
            SettingsView {
                ip: ip->Ok_0,
                port: port->Ok_0,
                www_dir: www_dir->Ok_0,
                tasks: tasks->Ok_0,
                cache: cache->Ok_0,
            },
        )
    }
}

/// The options that the program takes.
pub open spec fn program_options() -> Seq<(Seq<char>, Seq<char>, Seq<char>, Seq<char>, bool)> {
    seq![
        (""@, "ip"@, ""@, ""@, true),
        (""@, "port"@, ""@, ""@, true),
        (""@, "www"@, ""@, ""@, true),
        (""@, "task"@, ""@, ""@, true),
        (""@, "cache"@, ""@, ""@, true),
        ("h"@, ""@, ""@, ""@, false),
        (""@, "help"@, ""@, ""@, false),
    ]
}

/// What is given for the option of a name.
pub open spec fn given_under(
    values: Map<Seq<char>, Seq<Option<Seq<char>>>>,
    name: Seq<char>,
) -> GivenView {
    GivenView {
        present: values[name].len() > 0,
        value: if values[name].len() > 0 {
            values[name][0]
        } else {
            None
        },
    }
}

/// What is given for all options of the program.
pub open spec fn given_options(values: Map<Seq<char>, Seq<Option<Seq<char>>>>) -> GivenOptionsView {
    GivenOptionsView {
        ip: given_under(values, "ip"@),
        port: given_under(values, "port"@),
        www: given_under(values, "www"@),
        task: given_under(values, "task"@),
        cache: given_under(values, "cache"@),
        h: values["h"@].len() > 0,
        help: values["help"@].len() > 0,
    }
}

/// Writes how the program is used.
pub fn usage(program: &str) -> (written: String)
    ensures
        written@ == usage_spec(program@),
{
    let mut written: String = "Usage: ".to_owned();
    written.append(program);
    written.append(" [options]\n");
    written.append("--ip     \tIP address, \"");
    written.append(IP);
    written.append("\" by default.\n");
    written.append("--port   \tport number, \"");
    written.append(decimal(PORT).as_str());
    written.append("\" by default.\n");
    written.append("--www    \tworking directory, \"");
    written.append(WWW_DIR);
    written.append("\" by default.\n");
    written.append("--task   \tnumber of tasks for handling requests, \"");
    written.append(decimal(TASKS as usize).as_str());
    written.append("\" by default.\n");
    written.append("--cache  \tsize of cache in MB for pages, \"");
    written.append(decimal(CACHE).as_str());
    written.append("\" by default.\n");
    written.append("-h --help \tUsage\n");
    written
}

fn choose_text(given: &Given, default: &str, complaint: &str) -> (chosen: Result<String, String>)
    ensures
        match chosen {
            Ok(t) => text_option(given@, default@, complaint@) == Ok::<_, Seq<char>>(t@),
            Err(m) => text_option(given@, default@, complaint@) == Err::<Seq<char>, _>(m@),
        },
{
    if !given.present {
        return Ok(default.to_owned());
    }
    match &given.value {
        Some(value) => Ok(value.clone()),
        None => Err(complaint.to_owned()),
    }
}

fn choose_usize(given: &Given, default: usize, complaint: &str) -> (chosen: Result<usize, String>)
    ensures
        match chosen {
            Ok(n) => usize_option(given@, default, complaint@) == Ok::<_, Seq<char>>(n),
            Err(m) => usize_option(given@, default, complaint@) == Err::<usize, _>(m@),
        },
{
    if !given.present {
        return Ok(default);
    }
    match &given.value {
        Some(value) => match parse_usize(value.as_str()) {
            Some(n) => Ok(n),
            None => Err("not uint?".to_owned()),
        },
        None => Err(complaint.to_owned()),
    }
}

fn choose_isize(given: &Given, default: isize, complaint: &str) -> (chosen: Result<isize, String>)
    ensures
        match chosen {
            Ok(n) => isize_option(given@, default, complaint@) == Ok::<_, Seq<char>>(n),
            Err(m) => isize_option(given@, default, complaint@) == Err::<isize, _>(m@),
        },
{
    if !given.present {
        return Ok(default);
    }
    match &given.value {
        Some(value) => match parse_isize(value.as_str()) {
            Some(n) => Ok(n),
            None => Err("not uint?".to_owned()),
        },
        None => Err(complaint.to_owned()),
    }
}

/// Tells what the options of the program come to.
pub fn choose_settings(program: &str, given: &GivenOptions) -> (arguments: Arguments)
    ensures
        arguments@ == arguments_spec(program@, given@),
{
    if given.h || given.help {
        return Arguments::Usage(usage(program));
    }
    let ip = match choose_text(&given.ip, IP, "invalid ip address?") {
        Ok(ip) => ip,
        Err(message) => return Arguments::Fail(message),
    };
    let port = match choose_usize(&given.port, PORT, "invalid port number?") {
        Ok(port) => port,
        Err(message) => return Arguments::Fail(message),
    };
    let www_dir = match choose_text(&given.www, WWW_DIR, "invalid www argument?") {
        Ok(www_dir) => www_dir,
        Err(message) => return Arguments::Fail(message),
    };
    let tasks = match choose_isize(&given.task, TASKS, "invalid task number?") {
        Ok(tasks) => tasks,
        Err(message) => return Arguments::Fail(message),
    };
    let cache = match choose_usize(&given.cache, CACHE, "invalid cache size?") {
        Ok(cache) => cache,
        Err(message) => return Arguments::Fail(message),
    };
    Arguments::Run(Settings { ip, port, www_dir, tasks, cache })
}

/// Reads what is given for an option.
fn given_for(matches: &getopts::Matches, name: &str) -> (given: Given)
    requires
        outside::option_values(*matches).contains_key(name@),
    ensures
        given@ == given_under(outside::option_values(*matches), name@),
{
    Given { present: is_given(matches, name), value: value_of(matches, name) }
}

/// Declares the options that the program takes.
fn declare_options() -> (options: getopts::Options)
    ensures
        outside::declared_options(options) == program_options(),
        outside::is_plain(options),
{
    proof {
        reveal_strlit("");
        reveal_strlit("ip");
        reveal_strlit("port");
        reveal_strlit("www");
        reveal_strlit("task");
        reveal_strlit("cache");
        reveal_strlit("h");
        reveal_strlit("help");
    }
    let mut options = new_options();
    declare_option(&mut options, "", "ip", "", "");
    declare_option(&mut options, "", "port", "", "");
    declare_option(&mut options, "", "www", "", "");
    declare_option(&mut options, "", "task", "", "");
    declare_option(&mut options, "", "cache", "", "");
    declare_flag(&mut options, "h", "", "");
    declare_flag(&mut options, "", "help", "");
    assert(""@ =~= Seq::<char>::empty());
    assert(outside::declared_options(options) =~= program_options());
    options
}

/// Tells what the arguments of the program come to. The first of them is the name of the program.
pub fn get_args(args: &Vec<String>) -> (arguments: Arguments)
    requires
        args@.len() > 0,
    ensures
        arguments@ == (match outside::parsed_arguments(
            program_options(),
            text::texts(args@).skip(1),
        ) {
            Ok(values) => arguments_spec(args@[0]@, given_options(values)),
            Err(message) => ArgumentsView::Fail(message),
        }),
        args@.len() == 1 ==> arguments@ == ArgumentsView::Run(
            SettingsView {
                ip: IP@,
                port: PORT,
                www_dir: WWW_DIR@,
                tasks: TASKS,
                cache: CACHE,
            },
        ),
{
    let mut tail: Vec<String> = Vec::new();
    let mut i: usize = 1;
    while i < args.len()
        invariant
            1 <= i <= args.len(),
            tail@ == args@.subrange(1, i as int),
        decreases args.len() - i,
    {
        tail.push(args[i].clone());
        i = i + 1;
    }
    assert(text::texts(tail@) =~= text::texts(args@).skip(1));
    let options = declare_options();
    proof {
        reveal_strlit("ip");
        reveal_strlit("port");
        reveal_strlit("www");
        reveal_strlit("task");
        reveal_strlit("cache");
        reveal_strlit("h");
        reveal_strlit("help");
        let declared = outside::declared_options(options);
        assert(declared[0].1 == "ip"@ && declared[1].1 == "port"@ && declared[2].1 == "www"@);
        assert(declared[3].1 == "task"@ && declared[4].1 == "cache"@);
        assert(declared[5].0 == "h"@ && declared[6].1 == "help"@);
    }
    match parse_arguments(&options, &tail) {
        Ok(matches) => {
            let given = GivenOptions {
                ip: given_for(&matches, "ip"),
                port: given_for(&matches, "port"),
                www: given_for(&matches, "www"),
                task: given_for(&matches, "task"),
                cache: given_for(&matches, "cache"),
                h: is_given(&matches, "h"),
                help: is_given(&matches, "help"),
            };
            choose_settings(args[0].as_str(), &given)
        },
        Err(message) => Arguments::Fail(message),
    }
}

/// Whether an option with a value was given without one.
pub open spec fn lacks_value(given: GivenView) -> bool {
    given.present && given.value is None
}

/// Whether an option was given with a value that is not among the `usize` numbers.
pub open spec fn is_no_usize(given: GivenView) -> bool {
    given.present && given.value is Some && text::parse_usize_spec(given.value->0) is None
}

/// Whether an option was given with a value that is not among the `isize` numbers.
pub open spec fn is_no_isize(given: GivenView) -> bool {
    given.present && given.value is Some && text::parse_isize_spec(given.value->0) is None
}

/// Whether one of the options cannot be followed.
pub open spec fn some_option_is_wrong(given: GivenOptionsView) -> bool {
    ||| lacks_value(given.ip)
    ||| lacks_value(given.port)
    ||| is_no_usize(given.port)
    ||| lacks_value(given.www)
    ||| lacks_value(given.task)
    ||| is_no_isize(given.task)
    ||| lacks_value(given.cache)
    ||| is_no_usize(given.cache)
}

/// Where no option is wrong, the server runs with what was given for each setting, and with the
/// default for every setting for which nothing was.
pub proof fn law_options_are_followed(program: Seq<char>, given: GivenOptionsView)
    requires
        !given.h,
        !given.help,
        !some_option_is_wrong(given),
    ensures
        arguments_spec(program, given) matches ArgumentsView::Run(settings) && {
            &&& given.ip.present ==> given.ip.value == Some(settings.ip)
            &&& !given.ip.present ==> settings.ip == "127.0.0.1"@
            &&& given.port.present ==> text::parse_usize_spec(given.port.value->0) == Some(
                settings.port,
            )
            &&& !given.port.present ==> settings.port == 4414
            &&& given.www.present ==> given.www.value == Some(settings.www_dir)
            &&& !given.www.present ==> settings.www_dir == "./www"@
            &&& given.task.present ==> text::parse_isize_spec(given.task.value->0) == Some(
                settings.tasks,
            )
            &&& !given.task.present ==> settings.tasks == 8
            &&& given.cache.present ==> text::parse_usize_spec(given.cache.value->0) == Some(
                settings.cache,
            )
            &&& !given.cache.present ==> settings.cache == 2
        },
{
}

/// A number that is given in decimal is the number that is used.
pub proof fn law_numbers_are_used(
    program: Seq<char>,
    given: GivenOptionsView,
    port: usize,
    tasks: usize,
    cache: usize,
)
    requires
        !given.h,
        !given.help,
        !lacks_value(given.ip),
        !lacks_value(given.www),
        tasks <= isize::MAX,
        given.port == (GivenView {
            present: true,
            value: Some(text::decimal_spec(port as nat)),
        }),
        given.task == (GivenView {
            present: true,
            value: Some(text::decimal_spec(tasks as nat)),
        }),
        given.cache == (GivenView {
            present: true,
            value: Some(text::decimal_spec(cache as nat)),
        }),
    ensures
        arguments_spec(program, given) matches ArgumentsView::Run(settings) && settings.port == port
            && settings.tasks == tasks && settings.cache == cache,
{
    text::law_decimal_is_read_back(port);
    text::law_decimal_is_read_back(tasks);
    text::law_decimal_is_read_back(cache);
}

/// Where an option is wrong, the program fails, and the first option that is wrong, in the order
/// address, port, directory, tasks and cache, decides what it says.
pub proof fn law_wrong_options_fail(program: Seq<char>, given: GivenOptionsView)
    requires
        !given.h,
        !given.help,
        some_option_is_wrong(given),
    ensures
        arguments_spec(program, given) is Fail,
        lacks_value(given.ip) ==> arguments_spec(program, given) == ArgumentsView::Fail(
            "invalid ip address?"@,
        ),
        !lacks_value(given.ip) ==> {
            &&& lacks_value(given.port) ==> arguments_spec(program, given) == ArgumentsView::Fail(
                "invalid port number?"@,
            )
            &&& is_no_usize(given.port) ==> arguments_spec(program, given) == ArgumentsView::Fail(
                "not uint?"@,
            )
        },
        !lacks_value(given.ip) && !lacks_value(given.port) && !is_no_usize(given.port) ==> {
            &&& lacks_value(given.www) ==> arguments_spec(program, given) == ArgumentsView::Fail(
                "invalid www argument?"@,
            )
            &&& !lacks_value(given.www) && lacks_value(given.task) ==> arguments_spec(
                program,
                given,
            ) == ArgumentsView::Fail("invalid task number?"@)
            &&& !lacks_value(given.www) && is_no_isize(given.task) ==> arguments_spec(
                program,
                given,
            ) == ArgumentsView::Fail("not uint?"@)
            &&& !lacks_value(given.www) && !lacks_value(given.task) && !is_no_isize(given.task) ==> {
                &&& lacks_value(given.cache) ==> arguments_spec(program, given)
                    == ArgumentsView::Fail("invalid cache size?"@)
                &&& is_no_usize(given.cache) ==> arguments_spec(program, given)
                    == ArgumentsView::Fail("not uint?"@)
            }
        },
{
}

/// Both help options print how the program is used, whatever else is given.
pub proof fn law_help_comes_first(program: Seq<char>, given: GivenOptionsView)
    requires
        given.h || given.help,
    ensures
        arguments_spec(program, given) == ArgumentsView::Usage(usage_spec(program)),
{
}

/// How two programs are used differs in their names alone.
pub proof fn law_usage_names_the_program(program: Seq<char>, other: Seq<char>)
    ensures
        exists|rest: Seq<char>|
            {
                &&& usage_spec(program) == #[trigger] ("Usage: "@ + program + rest)
                &&& usage_spec(other) == "Usage: "@ + other + rest
            },
{
    let head = "Usage: "@;
    let a = usage_spec(program);
    let b = usage_spec(other);
    let rest = a.skip((head + program).len() as int);
    assert(a =~= head + program + rest);
    assert(b =~= head + other + rest);
}

/// The value of an option is the first that was given under its own name, and it is given if there
/// is any; the two flags are given if there is anything under their names.
pub proof fn law_options_go_by_their_names(values: Map<Seq<char>, Seq<Option<Seq<char>>>>)
    ensures
        ({
            let given = given_options(values);
            &&& given.ip.present == (values["ip"@].len() > 0)
            &&& given.port.present == (values["port"@].len() > 0)
            &&& given.www.present == (values["www"@].len() > 0)
            &&& given.task.present == (values["task"@].len() > 0)
            &&& given.cache.present == (values["cache"@].len() > 0)
            &&& given.ip.present ==> given.ip.value == values["ip"@][0]
            &&& given.port.present ==> given.port.value == values["port"@][0]
            &&& given.www.present ==> given.www.value == values["www"@][0]
            &&& given.task.present ==> given.task.value == values["task"@][0]
            &&& given.cache.present ==> given.cache.value == values["cache"@][0]
            &&& given.h == (values["h"@].len() > 0)
            &&& given.help == (values["help"@].len() > 0)
        }),
{
}

/// The views of the options and of what they come to hold all that these do.
pub proof fn law_arguments_are_seen_in_full(settings: Settings, given: Given, message: String)
    ensures
        Arguments::Run(settings)@ == ArgumentsView::Run(
            SettingsView {
                ip: settings.ip@,
                port: settings.port,
                www_dir: settings.www_dir@,
                tasks: settings.tasks,
                cache: settings.cache,
            },
        ),
        Arguments::Usage(message)@ == ArgumentsView::Usage(message@),
        Arguments::Fail(message)@ == ArgumentsView::Fail(message@),
        given@.present == given.present,
        given.value is None <==> given@.value is None,
        given.value is Some ==> given@.value == Some((given.value->0)@),
{
}

} // verus!
