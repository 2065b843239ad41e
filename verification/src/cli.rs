//! Command-line arguments.

use vstd::prelude::*;
use crate::chars::{chars_of, decimal, digit_char, has_prefix, starts_with, str_equal, string_from};

verus! {

/// What the reader does with the file.
#[derive(Debug, Clone, Copy, PartialEq, Eq, Structural)]
pub enum Mode {
    /// Write a temporary HTML preview.
    Preview,
    /// Serve the file over local HTTP.
    Serve,
}

/// The options the reader runs with.
#[derive(Debug, Clone, PartialEq, Eq)]
pub struct Config {
    pub file: String,
    pub host: String,
    pub port: u16,
    pub open_browser: bool,
    pub mode: Mode,
    pub host_set: bool,
    pub port_set: bool,
}

/// Why a port number did not parse.
#[derive(Debug, Clone, Copy, PartialEq, Eq, Structural)]
pub enum PortError {
    /// The value is empty.
    Empty,
    /// A character is not a decimal digit.
    InvalidDigit,
    /// The number is above 65535.
    PosOverflow,
}

/// Why the arguments were refused.
#[derive(Debug, Clone, PartialEq, Eq)]
pub enum ConfigError {
    /// `--host` is the last argument.
    MissingHostValue,
    /// `--port` is the last argument.
    MissingPortValue,
    /// The port value is not a number from 0 to 65535.
    InvalidPort(PortError),
    /// An argument starts with `-` and is no known option.
    UnknownOption(String),
    /// More than one file was named.
    MultipleFiles,
    /// No file was named.
    MissingFile,
}

pub struct ConfigView {
    pub file: Seq<char>,
    pub host: Seq<char>,
    pub port: u16,
    pub open_browser: bool,
    pub mode: Mode,
    pub host_set: bool,
    pub port_set: bool,
}

pub enum ConfigErrorView {
    MissingHostValue,
    MissingPortValue,
    InvalidPort(PortError),
    UnknownOption(Seq<char>),
    MultipleFiles,
    MissingFile,
}

impl View for Config {
    type V = ConfigView;

    open spec fn view(&self) -> ConfigView {
        ConfigView {
            file: self.file@,
            host: self.host@,
            port: self.port,
            open_browser: self.open_browser,
            mode: self.mode,
            host_set: self.host_set,
            port_set: self.port_set,
        }
    }
}

impl View for ConfigError {
    type V = ConfigErrorView;

    open spec fn view(&self) -> ConfigErrorView {
        match self {
            ConfigError::MissingHostValue => ConfigErrorView::MissingHostValue,
            ConfigError::MissingPortValue => ConfigErrorView::MissingPortValue,
            ConfigError::InvalidPort(e) => ConfigErrorView::InvalidPort(*e),
            ConfigError::UnknownOption(arg) => ConfigErrorView::UnknownOption(arg@),
            ConfigError::MultipleFiles => ConfigErrorView::MultipleFiles,
            ConfigError::MissingFile => ConfigErrorView::MissingFile,
        }
    }
}

/// The value of a decimal digit character.
pub open spec fn digit_value(c: char) -> Option<nat> {
    if '0' <= c && c <= '9' {
        Some((c as u32 - '0' as u32) as nat)
    } else {
        None
    }
}

/// Reading the digits `s[i..]` onto `acc`, the way `u16::from_str` does:
/// the first character that is no digit is an invalid digit, and a value
/// above 65535 an overflow, whichever comes first.
pub open spec fn port_digits(s: Seq<char>, i: int, acc: nat) -> Result<u16, PortError>
    decreases s.len() - i,
{
    if i < 0 || i >= s.len() {
        Ok(acc as u16)
    } else {
        match digit_value(s[i]) {
            None => Err(PortError::InvalidDigit),
            Some(d) => if acc * 10 + d > 65535 {
                Err(PortError::PosOverflow)
            } else {
                port_digits(s, i + 1, acc * 10 + d)
            },
        }
    }
}

/// A port number written in decimal, as `u16::from_str` reads it: an
/// optional leading `+`, then at least one digit.
pub open spec fn parse_port(s: Seq<char>) -> Result<u16, PortError> {
    if s.len() == 0 {
        Err(PortError::Empty)
    } else if s.len() == 1 && (s[0] == '+' || s[0] == '-') {
        Err(PortError::InvalidDigit)
    } else if s[0] == '+' {
        port_digits(s, 1, 0)
    } else {
        port_digits(s, 0, 0)
    }
}

/// Parses a port number: see `parse_port`.
pub fn parse_port_number(value: &str) -> (res: Result<u16, PortError>)
    ensures
        res == parse_port(value@),
{
    let s = chars_of(value);
    if s.len() == 0 {
        return Err(PortError::Empty);
    }
    if s.len() == 1 && (s[0] == '+' || s[0] == '-') {
        return Err(PortError::InvalidDigit);
    }
    let mut i: usize = if s[0] == '+' {
        1
    } else {
        0
    };
    let mut acc: u32 = 0;
    proof {
        assert(parse_port(value@) == port_digits(s@, i as int, 0));
    }
    while i < s.len()
        invariant
            i <= s.len(),
            s@ == value@,
            acc <= 65535,
            parse_port(value@) == port_digits(s@, i as int, acc as nat),
        decreases s.len() - i,
    {
        let c = s[i];
        if c < '0' || c > '9' {
            return Err(PortError::InvalidDigit);
        }
        let d = (c as u32) - ('0' as u32);
        if acc * 10 + d > 65535 {
            return Err(PortError::PosOverflow);
        }
        acc = acc * 10 + d;
        i = i + 1;
    }
    Ok(acc as u16)
}

/// The arguments read so far.
pub struct ParseState {
    pub file: Option<Seq<char>>,
    pub host: Seq<char>,
    pub port: u16,
    pub open_browser: bool,
    pub mode: Mode,
    pub host_set: bool,
    pub port_set: bool,
}

pub open spec fn initial_state() -> ParseState {
    ParseState {
        file: None,
        host: "127.0.0.1"@,
        port: 0,
        open_browser: true,
        mode: Mode::Preview,
        host_set: false,
        port_set: false,
    }
}

/// Reading the arguments from `args[i]` on, in state `st`.
pub open spec fn parse_from(args: Seq<Seq<char>>, i: int, st: ParseState) -> Result<
    ParseState,
    ConfigErrorView,
>
    decreases args.len() - i,
{
    if i < 0 || i >= args.len() {
        Ok(st)
    } else {
        let arg = args[i];
        if arg == "--no-open"@ {
            parse_from(args, i + 1, ParseState { open_browser: false, ..st })
        } else if arg == "--serve"@ {
            parse_from(args, i + 1, ParseState { mode: Mode::Serve, ..st })
        } else if arg == "--host"@ {
            if i + 1 < args.len() {
                parse_from(args, i + 2, ParseState { host: args[i + 1], host_set: true, ..st })
            } else {
                Err(ConfigErrorView::MissingHostValue)
            }
        } else if arg == "--port"@ {
            if i + 1 < args.len() {
                match parse_port(args[i + 1]) {
                    Ok(p) => parse_from(args, i + 2, ParseState { port: p, port_set: true, ..st }),
                    Err(e) => Err(ConfigErrorView::InvalidPort(e)),
                }
            } else {
                Err(ConfigErrorView::MissingPortValue)
            }
        } else if has_prefix(arg, "--host="@) {
            parse_from(
                args,
                i + 1,
                ParseState { host: arg.skip("--host="@.len() as int), host_set: true, ..st },
            )
        } else if has_prefix(arg, "--port="@) {
            match parse_port(arg.skip("--port="@.len() as int)) {
                Ok(p) => parse_from(args, i + 1, ParseState { port: p, port_set: true, ..st }),
                Err(e) => Err(ConfigErrorView::InvalidPort(e)),
            }
        } else if arg.len() > 0 && arg[0] == '-' {
            Err(ConfigErrorView::UnknownOption(arg))
        } else if st.file is Some {
            Err(ConfigErrorView::MultipleFiles)
        } else {
            parse_from(args, i + 1, ParseState { file: Some(arg), ..st })
        }
    }
}

pub open spec fn arg_views(args: Seq<&str>) -> Seq<Seq<char>> {
    args.map_values(|a: &str| a@)
}

/// The configuration the command line `args` asks for; `args[0]` is the
/// program name. Options: `--no-open`, `--serve`, `--host <host>`,
/// `--host=<host>`, `--port <port>`, `--port=<port>`; exactly one other
/// argument names the file. A later option overrides an earlier one.
pub open spec fn config_for(args: Seq<Seq<char>>) -> Result<ConfigView, ConfigErrorView> {
    match parse_from(args, 1, initial_state()) {
        Ok(st) => match st.file {
            Some(file) => Ok(
                ConfigView {
                    file,
                    host: st.host,
                    port: st.port,
                    open_browser: st.open_browser,
                    mode: st.mode,
                    host_set: st.host_set,
                    port_set: st.port_set,
                },
            ),
            None => Err(ConfigErrorView::MissingFile),
        },
        Err(e) => Err(e),
    }
}

impl Config {
    /// Reads the command line; `args[0]` is the program name. See
    /// `config_for`.
    pub fn parse(args: &[&str]) -> (res: Result<Config, ConfigError>)
        ensures
            match res {
                Ok(config) => config_for(arg_views(args@)) == Ok::<ConfigView, ConfigErrorView>(
                    config@,
                ),
                Err(e) => config_for(arg_views(args@)) == Err::<ConfigView, ConfigErrorView>(e@),
            },
    {
        let ghost argv = arg_views(args@);
        let mut file: Option<String> = None;
        let mut host = String::new();
        host.push_str("127.0.0.1");
        let mut port: u16 = 0;
        let mut open_browser = true;
        let mut mode = Mode::Preview;
        let mut host_set = false;
        let mut port_set = false;
        let mut i: usize = 1;
        while i < args.len()
            invariant
                1 <= i,
                argv == arg_views(args@),
                argv.len() == args@.len(),
                forall|k: int| 0 <= k < args@.len() ==> #[trigger] argv[k] == args@[k]@,
                parse_from(argv, 1, initial_state()) == parse_from(
                    argv,
                    i as int,
                    ParseState {
                        file: match file {
                            Some(f) => Some(f@),
                            None => None,
                        },
                        host: host@,
                        port,
                        open_browser,
                        mode,
                        host_set,
                        port_set,
                    },
                ),
            decreases args.len() - i,
        {
            let arg: &str = args[i];
            if str_equal(arg, "--no-open") {
                open_browser = false;
                i = i + 1;
            } else if str_equal(arg, "--serve") {
                mode = Mode::Serve;
                i = i + 1;
            } else if str_equal(arg, "--host") {
                if i + 1 < args.len() {
                    let mut h = String::new();
                    h.push_str(args[i + 1]);
                    host = h;
                    host_set = true;
                    i = i + 2;
                } else {
                    return Err(ConfigError::MissingHostValue);
                }
            } else if str_equal(arg, "--port") {
                if i + 1 < args.len() {
                    match parse_port_number(args[i + 1]) {
                        Ok(p) => {
                            port = p;
                            port_set = true;
                            i = i + 2;
                        },
                        Err(e) => {
                            return Err(ConfigError::InvalidPort(e));
                        },
                    }
                } else {
                    return Err(ConfigError::MissingPortValue);
                }
            } else {
                let a = chars_of(arg);
                if starts_with(&a, "--host=") {
                    let prefix_len = chars_of("--host=").len();
                    host = string_from(&a, prefix_len, a.len());
                    assert(a@.skip(prefix_len as int) =~= a@.subrange(prefix_len as int, a.len() as int));
                    host_set = true;
                    i = i + 1;
                } else if starts_with(&a, "--port=") {
                    let prefix_len = chars_of("--port=").len();
                    let value = string_from(&a, prefix_len, a.len());
                    assert(a@.skip(prefix_len as int) =~= a@.subrange(prefix_len as int, a.len() as int));
                    match parse_port_number(value.as_str()) {
                        Ok(p) => {
                            port = p;
                            port_set = true;
                            i = i + 1;
                        },
                        Err(e) => {
                            return Err(ConfigError::InvalidPort(e));
                        },
                    }
                } else if a.len() > 0 && a[0] == '-' {
                    let mut unknown = String::new();
                    unknown.push_str(arg);
                    return Err(ConfigError::UnknownOption(unknown));
                } else if file.is_some() {
                    return Err(ConfigError::MultipleFiles);
                } else {
                    let mut f = String::new();
                    f.push_str(arg);
                    file = Some(f);
                    i = i + 1;
                }
            }
        }
        match file {
            Some(file) => Ok(
                Config { file, host, port, open_browser, mode, host_set, port_set },
            ),
            None => Err(ConfigError::MissingFile),
        }
    }
}

/// The usage text.
pub open spec fn usage_text() -> Seq<char> {
    "Usage: md-reader [OPTIONS] <file.md>\n\nOptions:\n  --serve          Serve the file over local HTTP instead of writing a temp HTML preview\n  --host <host>    Host to bind in --serve mode (default: 127.0.0.1)\n  --port <port>    Port to bind in --serve mode (default: random available port)\n  --no-open        Render or serve without opening a browser\n  -h, --help       Show this help"@
}

/// The usage text: the options and what they do.
pub fn usage() -> (text: String)
    ensures
        text@ == usage_text(),
{
    let mut text = String::new();
    text.push_str(
        "Usage: md-reader [OPTIONS] <file.md>\n\nOptions:\n  --serve          Serve the file over local HTTP instead of writing a temp HTML preview\n  --host <host>    Host to bind in --serve mode (default: 127.0.0.1)\n  --port <port>    Port to bind in --serve mode (default: random available port)\n  --no-open        Render or serve without opening a browser\n  -h, --help       Show this help",
    );
    text
}

/// What a port error says.
pub open spec fn port_error_text(e: PortError) -> Seq<char> {
    match e {
        PortError::Empty => "cannot parse integer from empty string"@,
        PortError::InvalidDigit => "invalid digit found in string"@,
        PortError::PosOverflow => "number too large to fit in target type"@,
    }
}

/// What a refusal of the arguments says.
pub open spec fn config_error_text(e: ConfigErrorView) -> Seq<char> {
    match e {
        ConfigErrorView::MissingHostValue => "--host requires a value"@,
        ConfigErrorView::MissingPortValue => "--port requires a value"@,
        ConfigErrorView::InvalidPort(p) => port_error_text(p),
        ConfigErrorView::UnknownOption(arg) => "unknown option: "@ + arg + "\n\n"@ + usage_text(),
        ConfigErrorView::MultipleFiles => "only one markdown file can be opened\n\n"@ + usage_text(),
        ConfigErrorView::MissingFile => usage_text(),
    }
}

impl PortError {
    /// The message for this error.
    pub fn message(&self) -> (text: String)
        ensures
            text@ == port_error_text(*self),
    {
        let mut text = String::new();
        match self {
            PortError::Empty => text.push_str("cannot parse integer from empty string"),
            PortError::InvalidDigit => text.push_str("invalid digit found in string"),
            PortError::PosOverflow => text.push_str("number too large to fit in target type"),
        }
        text
    }
}

impl ConfigError {
    /// The message for this error, as the reader prints it.
    pub fn message(&self) -> (text: String)
        ensures
            text@ == config_error_text(self@),
    {
        match self {
            ConfigError::MissingHostValue => {
                let mut text = String::new();
                text.push_str("--host requires a value");
                text
            },
            ConfigError::MissingPortValue => {
                let mut text = String::new();
                text.push_str("--port requires a value");
                text
            },
            ConfigError::InvalidPort(e) => e.message(),
            ConfigError::UnknownOption(arg) => {
                let mut text = String::new();
                text.push_str("unknown option: ");
                text.push_str(arg.as_str());
                text.push_str("\n\n");
                text.push_str(usage().as_str());
                text
            },
            ConfigError::MultipleFiles => {
                let mut text = String::new();
                text.push_str("only one markdown file can be opened\n\n");
                text.push_str(usage().as_str());
                text
            },
            ConfigError::MissingFile => usage(),
        }
    }
}

/// Whether an argument after the program name is `-h` or `--help`.
pub open spec fn asks_for_help(args: Seq<Seq<char>>) -> bool {
    exists|k: int| 1 <= k < args.len() && (args[k] == "-h"@ || args[k] == "--help"@)
}

/// Whether the command line asks for the usage text.
pub fn help_requested(args: &[&str]) -> (res: bool)
    ensures
        res == asks_for_help(arg_views(args@)),
{
    let ghost argv = arg_views(args@);
    let mut i: usize = 1;
    while i < args.len()
        invariant
            1 <= i,
            argv == arg_views(args@),
            argv.len() == args@.len(),
            forall|k: int| 0 <= k < args@.len() ==> #[trigger] argv[k] == args@[k]@,
            forall|k: int| 1 <= k < i && k < argv.len() ==> !(#[trigger] argv[k] == "-h"@ || argv[k] == "--help"@),
        decreases args.len() - i,
    {
        if str_equal(args[i], "-h") || str_equal(args[i], "--help") {
            assert(argv[i as int] == "-h"@ || argv[i as int] == "--help"@);
            return true;
        }
        i = i + 1;
    }
    false
}

/// The number the decimal digits `s` stand for.
pub open spec fn digits_value(s: Seq<char>) -> nat
    decreases s.len(),
{
    if s.len() == 0 {
        0
    } else {
        digits_value(s.drop_last()) * 10 + (s.last() as u32 - '0' as u32) as nat
    }
}

pub open spec fn all_digits(s: Seq<char>) -> bool {
    forall|k: int| 0 <= k < s.len() ==> '0' <= #[trigger] s[k] && s[k] <= '9'
}

proof fn lemma_port_digits(s: Seq<char>, i: int)
    requires
        0 <= i <= s.len(),
        all_digits(s),
        forall|k: int| 0 <= k <= s.len() ==> #[trigger] digits_value(s.take(k)) <= 65535,
    ensures
        port_digits(s, i, digits_value(s.take(i))) == Ok::<u16, PortError>(digits_value(s) as u16),
    decreases s.len() - i,
{
    if i >= s.len() {
        assert(s.take(i) =~= s);
    } else {
        let t = s.take(i + 1);
        assert(t.drop_last() =~= s.take(i));
        assert(t.last() == s[i]);
        assert(digits_value(s.take(i + 1)) <= 65535);
        lemma_port_digits(s, i + 1);
    }
}

proof fn lemma_digit_char(d: nat)
    requires
        d < 10,
    ensures
        '0' <= digit_char(d) && digit_char(d) <= '9',
        (digit_char(d) as u32 - '0' as u32) as nat == d,
{
    if d == 0 {
    } else if d == 1 {
    } else if d == 2 {
    } else if d == 3 {
    } else if d == 4 {
    } else if d == 5 {
    } else if d == 6 {
    } else if d == 7 {
    } else if d == 8 {
    } else {
    }
}

proof fn lemma_decimal_digits(n: nat)
    ensures
        decimal(n).len() >= 1,
        all_digits(decimal(n)),
        digits_value(decimal(n)) == n,
        forall|k: int| 0 <= k <= decimal(n).len() ==> #[trigger] digits_value(decimal(n).take(k)) <= n,
    decreases n,
{
    let d = decimal(n);
    lemma_digit_char(n % 10);
    if n < 10 {
        assert(d.drop_last() =~= seq![]);
        assert(digits_value(d.drop_last()) == 0);
        assert forall|k: int| 0 <= k <= d.len() implies #[trigger] digits_value(d.take(k)) <= n by {
            if k == 0 {
                assert(d.take(k) =~= seq![]);
            } else {
                assert(d.take(k) =~= d);
            }
        }
    } else {
        lemma_decimal_digits(n / 10);
        let p = decimal(n / 10);
        assert(d == p.push(digit_char(n % 10)));
        assert(d.drop_last() =~= p);
        assert forall|k: int| 0 <= k < d.len() implies '0' <= #[trigger] d[k] && d[k] <= '9' by {
            if k < p.len() {
                assert(d[k] == p[k]);
            }
        }
        assert forall|k: int| 0 <= k <= d.len() implies #[trigger] digits_value(d.take(k)) <= n by {
            if k < d.len() {
                assert(d.take(k) =~= p.take(k));
            } else {
                assert(d.take(k) =~= d);
            }
        }
    }
}

/// Reading back the decimal notation of a port number gives the number.
pub proof fn port_notation_round_trips(port: u16)
    ensures
        parse_port(decimal(port as nat)) == Ok::<u16, PortError>(port),
{
    let d = decimal(port as nat);
    lemma_decimal_digits(port as nat);
    lemma_port_digits(d, 0);
    assert(d.take(0) =~= seq![]);
}

proof fn lemma_parse_extends(
    args: Seq<Seq<char>>,
    ext: Seq<Seq<char>>,
    i: int,
    st: ParseState,
    done: ParseState,
)
    requires
        0 <= i <= args.len(),
        parse_from(args, i, st) == Ok::<ParseState, ConfigErrorView>(done),
    ensures
        parse_from(args + ext, i, st) == parse_from(args + ext, args.len() as int, done),
    decreases args.len() - i,
{
    let all = args + ext;
    if i < args.len() {
        let arg = args[i];
        assert(all[i] == arg);
        if i + 1 < args.len() {
            assert(all[i + 1] == args[i + 1]);
        }
        if arg == "--no-open"@ {
            lemma_parse_extends(args, ext, i + 1, ParseState { open_browser: false, ..st }, done);
        } else if arg == "--serve"@ {
            lemma_parse_extends(args, ext, i + 1, ParseState { mode: Mode::Serve, ..st }, done);
        } else if arg == "--host"@ {
            lemma_parse_extends(
                args,
                ext,
                i + 2,
                ParseState { host: args[i + 1], host_set: true, ..st },
                done,
            );
        } else if arg == "--port"@ {
            let p = parse_port(args[i + 1])->Ok_0;
            lemma_parse_extends(args, ext, i + 2, ParseState { port: p, port_set: true, ..st }, done);
        } else if has_prefix(arg, "--host="@) {
            lemma_parse_extends(
                args,
                ext,
                i + 1,
                ParseState { host: arg.skip("--host="@.len() as int), host_set: true, ..st },
                done,
            );
        } else if has_prefix(arg, "--port="@) {
            let p = parse_port(arg.skip("--port="@.len() as int))->Ok_0;
            lemma_parse_extends(args, ext, i + 1, ParseState { port: p, port_set: true, ..st }, done);
        } else if arg.len() > 0 && arg[0] == '-' {
        } else {
            lemma_parse_extends(args, ext, i + 1, ParseState { file: Some(arg), ..st }, done);
        }
    }
}

/// The configuration the parse state `st` stands for, once every argument
/// is read.
pub open spec fn config_of(st: ParseState) -> Result<ConfigView, ConfigErrorView> {
    match st.file {
        Some(file) => Ok(
            ConfigView {
                file,
                host: st.host,
                port: st.port,
                open_browser: st.open_browser,
                mode: st.mode,
                host_set: st.host_set,
                port_set: st.port_set,
            },
        ),
        None => Err(ConfigErrorView::MissingFile),
    }
}

/// A later option overrides what the command line said before it: adding
/// `--host H` or `--host=H` sets the host to `H`, `--port P` or `--port=P`
/// the port to the number `P`, `--no-open` turns the browser off and
/// `--serve` selects serve mode, with the rest of the configuration kept.
pub proof fn later_options_override(args: Seq<Seq<char>>, h: Seq<char>, p: Seq<char>)
    requires
        args.len() >= 1,
        config_for(args) is Ok,
        parse_port(p) is Ok,
    ensures
        ({
            let c = config_for(args)->Ok_0;
            let port = parse_port(p)->Ok_0;
            &&& config_for(args + seq!["--host"@, h]) == Ok::<ConfigView, ConfigErrorView>(
                ConfigView { host: h, host_set: true, ..c },
            )
            &&& config_for(args + seq!["--host="@ + h]) == Ok::<ConfigView, ConfigErrorView>(
                ConfigView { host: h, host_set: true, ..c },
            )
            &&& config_for(args + seq!["--port"@, p]) == Ok::<ConfigView, ConfigErrorView>(
                ConfigView { port, port_set: true, ..c },
            )
            &&& config_for(args + seq!["--port="@ + p]) == Ok::<ConfigView, ConfigErrorView>(
                ConfigView { port, port_set: true, ..c },
            )
            &&& config_for(args.push("--no-open"@)) == Ok::<ConfigView, ConfigErrorView>(
                ConfigView { open_browser: false, ..c },
            )
            &&& config_for(args.push("--serve"@)) == Ok::<ConfigView, ConfigErrorView>(
                ConfigView { mode: Mode::Serve, ..c },
            )
        }),
{
    reveal_strlit("--no-open");
    reveal_strlit("--serve");
    reveal_strlit("--host");
    reveal_strlit("--port");
    reveal_strlit("--host=");
    reveal_strlit("--port=");
    let done = parse_from(args, 1, initial_state())->Ok_0;
    assert(config_for(args) == config_of(done));
    let n = args.len() as int;
    let e1 = seq!["--host"@, h];
    lemma_parse_extends(args, e1, 1, initial_state(), done);
    assert((args + e1)[n] == "--host"@);
    assert((args + e1)[n + 1] == h);
    let s1 = ParseState { host: h, host_set: true, ..done };
    assert(parse_from(args + e1, n + 2, s1) == Ok::<ParseState, ConfigErrorView>(s1));
    assert(parse_from(args + e1, n, done) == parse_from(args + e1, n + 2, s1));
    let a2 = "--host="@ + h;
    let e2 = seq![a2];
    lemma_parse_extends(args, e2, 1, initial_state(), done);
    assert((args + e2)[n] == a2);
    assert(a2[2] == 'h');
    assert(a2 != "--no-open"@) by {
        assert("--no-open"@[2] == 'n');
    }
    assert(a2 != "--serve"@) by {
        assert("--serve"@[2] == 's');
    }
    assert(a2 != "--host"@) by {
        assert(a2.len() != "--host"@.len());
    }
    assert(a2 != "--port"@) by {
        assert("--port"@[2] == 'p');
    }
    assert(a2.subrange(0, 7) =~= "--host="@);
    assert(a2.skip(7) =~= h);
    assert(parse_from(args + e2, n + 1, s1) == Ok::<ParseState, ConfigErrorView>(s1));
    assert(parse_from(args + e2, n, done) == parse_from(args + e2, n + 1, s1));
    let e3 = seq!["--port"@, p];
    lemma_parse_extends(args, e3, 1, initial_state(), done);
    assert((args + e3)[n] == "--port"@);
    assert((args + e3)[n + 1] == p);
    assert("--port"@ != "--host"@) by {
        assert("--port"@[2] != "--host"@[2]);
    }
    assert("--port"@ != "--no-open"@) by {
        assert("--port"@.len() != "--no-open"@.len());
    }
    assert("--port"@ != "--serve"@) by {
        assert("--port"@.len() != "--serve"@.len());
    }
    let s3 = ParseState { port: parse_port(p)->Ok_0, port_set: true, ..done };
    assert(parse_from(args + e3, n + 2, s3) == Ok::<ParseState, ConfigErrorView>(s3));
    assert(parse_from(args + e3, n, done) == parse_from(args + e3, n + 2, s3));
    let a4 = "--port="@ + p;
    let e4 = seq![a4];
    lemma_parse_extends(args, e4, 1, initial_state(), done);
    assert((args + e4)[n] == a4);
    assert(a4[2] == 'p');
    assert(a4 != "--no-open"@) by {
        assert("--no-open"@[2] == 'n');
    }
    assert(a4 != "--serve"@) by {
        assert("--serve"@[2] == 's');
    }
    assert(a4 != "--host"@) by {
        assert("--host"@[2] == 'h');
    }
    assert(a4 != "--port"@) by {
        assert(a4.len() != "--port"@.len());
    }
    assert(!has_prefix(a4, "--host="@)) by {
        assert(a4.subrange(0, 7)[2] == 'p');
    }
    assert(a4.subrange(0, 7) =~= "--port="@);
    assert(a4.skip(7) =~= p);
    assert(parse_from(args + e4, n + 1, s3) == Ok::<ParseState, ConfigErrorView>(s3));
    assert(parse_from(args + e4, n, done) == parse_from(args + e4, n + 1, s3));
    let e5 = seq!["--no-open"@];
    lemma_parse_extends(args, e5, 1, initial_state(), done);
    assert(args.push("--no-open"@) =~= args + e5);
    assert((args + e5)[n] == "--no-open"@);
    let s5 = ParseState { open_browser: false, ..done };
    assert(parse_from(args + e5, n + 1, s5) == Ok::<ParseState, ConfigErrorView>(s5));
    assert(parse_from(args + e5, n, done) == parse_from(args + e5, n + 1, s5));
    let e6 = seq!["--serve"@];
    lemma_parse_extends(args, e6, 1, initial_state(), done);
    assert(args.push("--serve"@) =~= args + e6);
    assert((args + e6)[n] == "--serve"@);
    assert("--serve"@ != "--no-open"@);
    let s6 = ParseState { mode: Mode::Serve, ..done };
    assert(parse_from(args + e6, n + 1, s6) == Ok::<ParseState, ConfigErrorView>(s6));
    assert(parse_from(args + e6, n, done) == parse_from(args + e6, n + 1, s6));
}

/// With only a program name and a file name, every option has its
/// default: host `127.0.0.1`, port 0, the browser opened, preview mode,
/// neither host nor port given.
pub proof fn options_default(program: Seq<char>, file: Seq<char>)
    requires
        file.len() > 0,
        file[0] != '-',
    ensures
        config_for(seq![program, file]) == Ok::<ConfigView, ConfigErrorView>(
            ConfigView {
                file,
                host: "127.0.0.1"@,
                port: 0,
                open_browser: true,
                mode: Mode::Preview,
                host_set: false,
                port_set: false,
            },
        ),
{
    reveal_strlit("--no-open");
    reveal_strlit("--serve");
    reveal_strlit("--host");
    reveal_strlit("--port");
    reveal_strlit("--host=");
    reveal_strlit("--port=");
    let args = seq![program, file];
    assert(args[1] == file);
    assert(file != "--no-open"@);
    assert(file != "--serve"@);
    assert(file != "--host"@);
    assert(file != "--port"@);
    assert(!has_prefix(file, "--host="@)) by {
        if has_prefix(file, "--host="@) {
            assert(file.subrange(0, 7)[0] == file[0]);
        }
    }
    assert(!has_prefix(file, "--port="@)) by {
        if has_prefix(file, "--port="@) {
            assert(file.subrange(0, 7)[0] == file[0]);
        }
    }
    let st = ParseState { file: Some(file), ..initial_state() };
    assert(parse_from(args, 2, st) == Ok::<ParseState, ConfigErrorView>(st));
    assert(parse_from(args, 1, initial_state()) == parse_from(args, 2, st));
}

/// Whether an option takes the next argument as its value.
pub open spec fn takes_value(arg: Seq<char>) -> bool {
    arg == "--host"@ || arg == "--port"@
}

/// The tokens of the command line from `args[i]` on: each argument, paired
/// with the next one when it is `--host` or `--port` and one follows, and
/// with nothing otherwise.
pub open spec fn tokens(args: Seq<Seq<char>>, i: int) -> Seq<(Seq<char>, Seq<char>)>
    decreases args.len() - i,
{
    if i < 0 || i >= args.len() {
        seq![]
    } else if takes_value(args[i]) && i + 1 < args.len() {
        seq![(args[i], args[i + 1])] + tokens(args, i + 2)
    } else {
        seq![(args[i], Seq::<char>::empty())] + tokens(args, i + 1)
    }
}

/// A `--host V` or `--host=V` token.
pub open spec fn host_token(t: (Seq<char>, Seq<char>)) -> bool {
    t.0 == "--host"@ || has_prefix(t.0, "--host="@)
}

/// The host a host token names.
pub open spec fn host_value(t: (Seq<char>, Seq<char>)) -> Seq<char> {
    if t.0 == "--host"@ {
        t.1
    } else {
        t.0.skip(7)
    }
}

/// A `--port P` or `--port=P` token.
pub open spec fn port_token(t: (Seq<char>, Seq<char>)) -> bool {
    t.0 == "--port"@ || has_prefix(t.0, "--port="@)
}

/// The text of the port a port token names.
pub open spec fn port_text(t: (Seq<char>, Seq<char>)) -> Seq<char> {
    if t.0 == "--port"@ {
        t.1
    } else {
        t.0.skip(7)
    }
}

/// A token that is no option: the file.
pub open spec fn positional(t: (Seq<char>, Seq<char>)) -> bool {
    t.0.len() == 0 || t.0[0] != '-'
}

/// A `--no-open` token.
pub open spec fn no_open_token(t: (Seq<char>, Seq<char>)) -> bool {
    t.0 == "--no-open"@
}

/// A `--serve` token.
pub open spec fn serve_token(t: (Seq<char>, Seq<char>)) -> bool {
    t.0 == "--serve"@
}

/// Whether some token satisfies `p`.
pub open spec fn any_token(
    t: Seq<(Seq<char>, Seq<char>)>,
    p: spec_fn((Seq<char>, Seq<char>)) -> bool,
) -> bool {
    exists|j: int| 0 <= j < t.len() && #[trigger] p(t[j])
}

/// Whether `t[j]` is the last token that satisfies `p`.
pub open spec fn last_token(
    t: Seq<(Seq<char>, Seq<char>)>,
    p: spec_fn((Seq<char>, Seq<char>)) -> bool,
    j: int,
) -> bool {
    0 <= j < t.len() && p(t[j]) && forall|m: int| j < m < t.len() ==> !#[trigger] p(t[m])
}

/// Whether `t[j]` is the only token that satisfies `p`.
pub open spec fn only_token(
    t: Seq<(Seq<char>, Seq<char>)>,
    p: spec_fn((Seq<char>, Seq<char>)) -> bool,
    j: int,
) -> bool {
    0 <= j < t.len() && p(t[j]) && forall|m: int| 0 <= m < t.len() && m != j ==> !#[trigger] p(t[m])
}

proof fn lemma_cons_tokens(
    x: (Seq<char>, Seq<char>),
    r: Seq<(Seq<char>, Seq<char>)>,
    p: spec_fn((Seq<char>, Seq<char>)) -> bool,
)
    ensures
        any_token(seq![x] + r, p) == (p(x) || any_token(r, p)),
        forall|j: int| last_token(r, p, j) ==> #[trigger] last_token(seq![x] + r, p, j + 1),
        p(x) && !any_token(r, p) ==> last_token(seq![x] + r, p, 0),
        forall|j: int| !p(x) && only_token(r, p, j) ==> #[trigger] only_token(seq![x] + r, p, j + 1),
        p(x) && !any_token(r, p) ==> only_token(seq![x] + r, p, 0),
{
    let t = seq![x] + r;
    assert(t[0] == x);
    assert forall|j: int| 0 <= j < r.len() implies t[j + 1] == r[j] by {}
    if any_token(r, p) {
        let j = choose|j: int| 0 <= j < r.len() && #[trigger] p(r[j]);
        assert(t[j + 1] == r[j]);
    }
    if any_token(t, p) && !p(x) {
        let j = choose|j: int| 0 <= j < t.len() && #[trigger] p(t[j]);
        assert(j != 0);
        assert(r[j - 1] == t[j]);
    }
    assert forall|j: int| last_token(r, p, j) implies #[trigger] last_token(t, p, j + 1) by {
        assert forall|m: int| j + 1 < m < t.len() implies !#[trigger] p(t[m]) by {
            assert(t[m] == r[m - 1]);
        }
    }
    if p(x) && !any_token(r, p) {
        assert forall|m: int| 0 < m < t.len() implies !#[trigger] p(t[m]) by {
            assert(t[m] == r[m - 1]);
        }
    }
    assert forall|j: int| !p(x) && only_token(r, p, j) implies #[trigger] only_token(t, p, j + 1) by {
        assert forall|m: int| 0 <= m < t.len() && m != j + 1 implies !#[trigger] p(t[m]) by {
            if m > 0 {
                assert(t[m] == r[m - 1]);
            }
        }
    }
}

proof fn lemma_option_literals()
    ensures
        "--no-open"@.len() == 9 && "--no-open"@[0] == '-' && "--no-open"@[2] == 'n',
        "--serve"@.len() == 7 && "--serve"@[0] == '-' && "--serve"@[2] == 's',
        "--host"@.len() == 6 && "--host"@[0] == '-' && "--host"@[2] == 'h',
        "--port"@.len() == 6 && "--port"@[0] == '-' && "--port"@[2] == 'p',
        "--host="@.len() == 7 && "--host="@[0] == '-' && "--host="@[2] == 'h',
        "--port="@.len() == 7 && "--port="@[0] == '-' && "--port="@[2] == 'p',
{
    reveal_strlit("--no-open");
    reveal_strlit("--serve");
    reveal_strlit("--host");
    reveal_strlit("--port");
    reveal_strlit("--host=");
    reveal_strlit("--port=");
}

proof fn lemma_prefix_char(a: Seq<char>, pre: Seq<char>, k: int)
    requires
        has_prefix(a, pre),
        0 <= k < pre.len(),
    ensures
        a[k] == pre[k],
{
    assert(a.subrange(0, pre.len() as int)[k] == a[k]);
}

proof fn lemma_lift_last(
    x: (Seq<char>, Seq<char>),
    r: Seq<(Seq<char>, Seq<char>)>,
    p: spec_fn((Seq<char>, Seq<char>)) -> bool,
    v: spec_fn((Seq<char>, Seq<char>)) -> bool,
)
    requires
        !p(x),
        any_token(r, p) ==> exists|j: int| #[trigger] last_token(r, p, j) && v(r[j]),
    ensures
        any_token(seq![x] + r, p) ==> exists|j: int| #[trigger] last_token(seq![x] + r, p, j) && v(
            (seq![x] + r)[j],
        ),
{
    lemma_cons_tokens(x, r, p);
    if any_token(r, p) {
        let j = choose|j: int| #[trigger] last_token(r, p, j) && v(r[j]);
        assert(last_token(seq![x] + r, p, j + 1));
        assert((seq![x] + r)[j + 1] == r[j]);
    }
}

proof fn lemma_lift_only(
    x: (Seq<char>, Seq<char>),
    r: Seq<(Seq<char>, Seq<char>)>,
    p: spec_fn((Seq<char>, Seq<char>)) -> bool,
    v: spec_fn((Seq<char>, Seq<char>)) -> bool,
)
    requires
        !p(x),
        any_token(r, p) ==> exists|j: int| #[trigger] only_token(r, p, j) && v(r[j]),
    ensures
        any_token(seq![x] + r, p) ==> exists|j: int| #[trigger] only_token(seq![x] + r, p, j) && v(
            (seq![x] + r)[j],
        ),
{
    lemma_cons_tokens(x, r, p);
    if any_token(r, p) {
        let j = choose|j: int| #[trigger] only_token(r, p, j) && v(r[j]);
        assert(only_token(seq![x] + r, p, j + 1));
        assert((seq![x] + r)[j + 1] == r[j]);
    }
}

/// The parse from `args[i]` on, in state `st`, in terms of the tokens.
proof fn lemma_parse_tokens(args: Seq<Seq<char>>, i: int, st: ParseState, done: ParseState)
    requires
        0 <= i,
        parse_from(args, i, st) == Ok::<ParseState, ConfigErrorView>(done),
    ensures
        ({
            let t = tokens(args, i);
            let hp = |x: (Seq<char>, Seq<char>)| host_token(x);
            let pp = |x: (Seq<char>, Seq<char>)| port_token(x);
            let fp = |x: (Seq<char>, Seq<char>)| positional(x);
            &&& done.open_browser == (st.open_browser && !any_token(
                t,
                |x: (Seq<char>, Seq<char>)| no_open_token(x),
            ))
            &&& (done.mode == Mode::Serve) == (st.mode == Mode::Serve || any_token(
                t,
                |x: (Seq<char>, Seq<char>)| serve_token(x),
            ))
            &&& done.host_set == (st.host_set || any_token(t, hp))
            &&& any_token(t, hp) ==> exists|j: int| #[trigger]
                last_token(t, hp, j) && done.host == host_value(t[j])
            &&& !any_token(t, hp) ==> done.host == st.host
            &&& done.port_set == (st.port_set || any_token(t, pp))
            &&& any_token(t, pp) ==> exists|j: int| #[trigger]
                last_token(t, pp, j) && parse_port(port_text(t[j])) == Ok::<u16, PortError>(done.port)
            &&& !any_token(t, pp) ==> done.port == st.port
            &&& any_token(t, fp) ==> st.file is None && exists|j: int| #[trigger]
                only_token(t, fp, j) && done.file == Some(t[j].0)
            &&& !any_token(t, fp) ==> done.file == st.file
        }),
    decreases args.len() - i,
{
    let t = tokens(args, i);
    let hp = |x: (Seq<char>, Seq<char>)| host_token(x);
    let pp = |x: (Seq<char>, Seq<char>)| port_token(x);
    let fp = |x: (Seq<char>, Seq<char>)| positional(x);
    let np = |x: (Seq<char>, Seq<char>)| no_open_token(x);
    let sp = |x: (Seq<char>, Seq<char>)| serve_token(x);
    lemma_option_literals();
    if i >= args.len() {
        assert(t =~= Seq::<(Seq<char>, Seq<char>)>::empty());
    } else {
        let arg = args[i];
        let next = if takes_value(arg) && i + 1 < args.len() {
            i + 2
        } else {
            i + 1
        };
        let x = t[0];
        let r = tokens(args, next);
        assert(t == seq![x] + r);
        lemma_cons_tokens(x, r, hp);
        lemma_cons_tokens(x, r, pp);
        lemma_cons_tokens(x, r, fp);
        lemma_cons_tokens(x, r, np);
        lemma_cons_tokens(x, r, sp);
        assert(x.0 == arg);
        if arg.len() >= 3 && has_prefix(arg, "--host="@) {
            lemma_prefix_char(arg, "--host="@, 0);
            lemma_prefix_char(arg, "--host="@, 2);
        }
        if arg.len() >= 3 && has_prefix(arg, "--port="@) {
            lemma_prefix_char(arg, "--port="@, 0);
            lemma_prefix_char(arg, "--port="@, 2);
        }
        if arg == "--no-open"@ {
            let st2 = ParseState { open_browser: false, ..st };
            lemma_parse_tokens(args, next, st2, done);
            assert(np(x));
            assert(!sp(x) && !hp(x) && !pp(x) && !fp(x)) by {
                assert(!has_prefix(arg, "--host="@)) by {
                    if has_prefix(arg, "--host="@) {
                        lemma_prefix_char(arg, "--host="@, 2);
                    }
                }
                assert(!has_prefix(arg, "--port="@)) by {
                    if has_prefix(arg, "--port="@) {
                        lemma_prefix_char(arg, "--port="@, 2);
                    }
                }
            }
            lemma_lift_last(x, r, hp, |y: (Seq<char>, Seq<char>)| done.host == host_value(y));
            lemma_lift_last(
                x,
                r,
                pp,
                |y: (Seq<char>, Seq<char>)| parse_port(port_text(y)) == Ok::<u16, PortError>(done.port),
            );
            lemma_lift_only(x, r, fp, |y: (Seq<char>, Seq<char>)| done.file == Some(y.0));
        } else if arg == "--serve"@ {
            let st2 = ParseState { mode: Mode::Serve, ..st };
            lemma_parse_tokens(args, next, st2, done);
            assert(sp(x));
            assert(!np(x) && !hp(x) && !pp(x) && !fp(x)) by {
                assert(!has_prefix(arg, "--host="@)) by {
                    if has_prefix(arg, "--host="@) {
                        lemma_prefix_char(arg, "--host="@, 2);
                    }
                }
                assert(!has_prefix(arg, "--port="@)) by {
                    if has_prefix(arg, "--port="@) {
                        lemma_prefix_char(arg, "--port="@, 2);
                    }
                }
            }
            lemma_lift_last(x, r, hp, |y: (Seq<char>, Seq<char>)| done.host == host_value(y));
            lemma_lift_last(
                x,
                r,
                pp,
                |y: (Seq<char>, Seq<char>)| parse_port(port_text(y)) == Ok::<u16, PortError>(done.port),
            );
            lemma_lift_only(x, r, fp, |y: (Seq<char>, Seq<char>)| done.file == Some(y.0));
        } else if arg == "--host"@ {
            assert(i + 1 < args.len());
            let st2 = ParseState { host: args[i + 1], host_set: true, ..st };
            lemma_parse_tokens(args, next, st2, done);
            assert(x == (arg, args[i + 1]));
            assert(hp(x) && host_value(x) == args[i + 1]);
            assert(!np(x) && !sp(x) && !fp(x));
            assert(!pp(x)) by {
                assert(!has_prefix(arg, "--port="@)) by {
                    if has_prefix(arg, "--port="@) {
                        lemma_prefix_char(arg, "--port="@, 2);
                    }
                }
            }
            if !any_token(r, hp) {
                assert(last_token(t, hp, 0));
            } else {
                let j = choose|j: int| #[trigger] last_token(r, hp, j) && done.host == host_value(r[j]);
                assert(last_token(t, hp, j + 1));
                assert(t[j + 1] == r[j]);
            }
            lemma_lift_last(
                x,
                r,
                pp,
                |y: (Seq<char>, Seq<char>)| parse_port(port_text(y)) == Ok::<u16, PortError>(done.port),
            );
            lemma_lift_only(x, r, fp, |y: (Seq<char>, Seq<char>)| done.file == Some(y.0));
        } else if arg == "--port"@ {
            assert(i + 1 < args.len());
            let p = parse_port(args[i + 1])->Ok_0;
            let st2 = ParseState { port: p, port_set: true, ..st };
            lemma_parse_tokens(args, next, st2, done);
            assert(x == (arg, args[i + 1]));
            assert(pp(x) && port_text(x) == args[i + 1]);
            assert(!np(x) && !sp(x) && !fp(x));
            assert(!hp(x)) by {
                assert(!has_prefix(arg, "--host="@)) by {
                    if has_prefix(arg, "--host="@) {
                        lemma_prefix_char(arg, "--host="@, 2);
                    }
                }
            }
            if !any_token(r, pp) {
                assert(last_token(t, pp, 0));
            } else {
                let j = choose|j: int| #[trigger]
                    last_token(r, pp, j) && parse_port(port_text(r[j])) == Ok::<u16, PortError>(done.port);
                assert(last_token(t, pp, j + 1));
                assert(t[j + 1] == r[j]);
            }
            lemma_lift_last(x, r, hp, |y: (Seq<char>, Seq<char>)| done.host == host_value(y));
            lemma_lift_only(x, r, fp, |y: (Seq<char>, Seq<char>)| done.file == Some(y.0));
        } else if has_prefix(arg, "--host="@) {
            lemma_prefix_char(arg, "--host="@, 0);
            lemma_prefix_char(arg, "--host="@, 2);
            let st2 = ParseState { host: arg.skip("--host="@.len() as int), host_set: true, ..st };
            lemma_parse_tokens(args, next, st2, done);
            assert(!takes_value(arg));
            assert(hp(x) && host_value(x) == arg.skip(7));
            assert(!np(x) && !sp(x) && !fp(x));
            assert(!pp(x)) by {
                if has_prefix(arg, "--port="@) {
                    lemma_prefix_char(arg, "--port="@, 2);
                }
            }
            if !any_token(r, hp) {
                assert(last_token(t, hp, 0));
            } else {
                let j = choose|j: int| #[trigger] last_token(r, hp, j) && done.host == host_value(r[j]);
                assert(last_token(t, hp, j + 1));
                assert(t[j + 1] == r[j]);
            }
            lemma_lift_last(
                x,
                r,
                pp,
                |y: (Seq<char>, Seq<char>)| parse_port(port_text(y)) == Ok::<u16, PortError>(done.port),
            );
            lemma_lift_only(x, r, fp, |y: (Seq<char>, Seq<char>)| done.file == Some(y.0));
        } else if has_prefix(arg, "--port="@) {
            lemma_prefix_char(arg, "--port="@, 0);
            lemma_prefix_char(arg, "--port="@, 2);
            let p = parse_port(arg.skip("--port="@.len() as int))->Ok_0;
            let st2 = ParseState { port: p, port_set: true, ..st };
            lemma_parse_tokens(args, next, st2, done);
            assert(!takes_value(arg));
            assert(pp(x) && port_text(x) == arg.skip(7));
            assert(!np(x) && !sp(x) && !fp(x) && !hp(x));
            if !any_token(r, pp) {
                assert(last_token(t, pp, 0));
            } else {
                let j = choose|j: int| #[trigger]
                    last_token(r, pp, j) && parse_port(port_text(r[j])) == Ok::<u16, PortError>(done.port);
                assert(last_token(t, pp, j + 1));
                assert(t[j + 1] == r[j]);
            }
            lemma_lift_last(x, r, hp, |y: (Seq<char>, Seq<char>)| done.host == host_value(y));
            lemma_lift_only(x, r, fp, |y: (Seq<char>, Seq<char>)| done.file == Some(y.0));
        } else if arg.len() > 0 && arg[0] == '-' {
            assert(false);
        } else {
            assert(st.file is None);
            let st2 = ParseState { file: Some(arg), ..st };
            lemma_parse_tokens(args, next, st2, done);
            assert(!takes_value(arg));
            assert(fp(x));
            assert(!np(x) && !sp(x) && !hp(x) && !pp(x)) by {
                if arg.len() > 0 {
                    assert(arg[0] != '-');
                }
                if has_prefix(arg, "--host="@) {
                    lemma_prefix_char(arg, "--host="@, 0);
                }
                if has_prefix(arg, "--port="@) {
                    lemma_prefix_char(arg, "--port="@, 0);
                }
            }
            assert(!any_token(r, fp));
            assert(only_token(t, fp, 0));
            lemma_lift_last(x, r, hp, |y: (Seq<char>, Seq<char>)| done.host == host_value(y));
            lemma_lift_last(
                x,
                r,
                pp,
                |y: (Seq<char>, Seq<char>)| parse_port(port_text(y)) == Ok::<u16, PortError>(done.port),
            );
        }
    }
}

/// What a command line that parses sets, read token by token (`--host` and
/// `--port` take the next argument as their value): the browser is opened
/// unless some token is `--no-open`; serve mode is on when some token is
/// `--serve`; the host is the one named by the last `--host V` or
/// `--host=V` token, or `127.0.0.1` when there is none; the port likewise
/// from the last `--port P` or `--port=P` token, or 0; and the file is the
/// one token that is no option.
pub proof fn command_line_options(args: Seq<Seq<char>>)
    requires
        config_for(args) is Ok,
    ensures
        ({
            let c = config_for(args)->Ok_0;
            let t = tokens(args, 1);
            let hp = |x: (Seq<char>, Seq<char>)| host_token(x);
            let pp = |x: (Seq<char>, Seq<char>)| port_token(x);
            let fp = |x: (Seq<char>, Seq<char>)| positional(x);
            &&& c.open_browser == !any_token(t, |x: (Seq<char>, Seq<char>)| no_open_token(x))
            &&& (c.mode == Mode::Serve) == any_token(t, |x: (Seq<char>, Seq<char>)| serve_token(x))
            &&& c.host_set == any_token(t, hp)
            &&& c.host_set ==> exists|j: int| #[trigger] last_token(t, hp, j) && c.host == host_value(t[j])
            &&& !c.host_set ==> c.host == "127.0.0.1"@
            &&& c.port_set == any_token(t, pp)
            &&& c.port_set ==> exists|j: int| #[trigger]
                last_token(t, pp, j) && parse_port(port_text(t[j])) == Ok::<u16, PortError>(c.port)
            &&& !c.port_set ==> c.port == 0
            &&& exists|j: int| #[trigger] only_token(t, fp, j) && c.file == t[j].0
        }),
{
    let done = parse_from(args, 1, initial_state())->Ok_0;
    lemma_parse_tokens(args, 1, initial_state(), done);
    assert(done.file is Some);
}

} // verus!
