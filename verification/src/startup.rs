//! Launch-at-login registration: the backend interface, the manager, and the
//! verified construction and reading of the platform descriptors — the macOS
//! launch-agent property list and the Windows Run registry value.
use vstd::prelude::*;

use crate::text::{
    append_str, chars_to_string, contains_chars, contains_sub, eq_ignore_case, lower_seq,
    split_lines_spec, split_ws, split_ws_spec, str_to_chars, sub_vec, trim, trim_spec,
};

verus! {

/// A launch-at-login mutation failure.
#[derive(Debug, Clone)]
pub struct StartupError {
    message: String,
}

impl StartupError {
    /// Wraps a failure message.
    pub fn new(message: String) -> (r: StartupError)
        ensures
            r.message_spec() == message@,
    {
        StartupError { message }
    }

    /// What [`StartupError::message`] returns.
    pub closed spec fn message_spec(&self) -> Seq<char> {
        self.message@
    }

    /// The failure message.
    pub fn message(&self) -> (r: &str)
        ensures
            r@ == self.message_spec(),
    {
        self.message.as_str()
    }
}

pub type StartupResult<T> = Result<T, StartupError>;

/// What the OS reports about the registration: whether launch-at-login is
/// registered, and whether the registered command carries the silent-start
/// flag.
#[derive(Debug, Clone, Copy, PartialEq, Eq, Structural)]
pub struct StartupStatus {
    pub auto_launch: bool,
    pub silent_start: bool,
}

impl Default for StartupStatus {
    /// Not registered, not silent.
    fn default() -> (r: StartupStatus)
        ensures
            !r.auto_launch,
            !r.silent_start,
    {
        StartupStatus { auto_launch: false, silent_start: false }
    }
}

/// A per-platform mutator of the launch-at-login registration.
/// Implementations live with the caller; nothing is assumed of them.
pub trait StartupBackend {
    fn configure(&self, auto_launch: bool, silent_start: bool) -> StartupResult<()>;

    fn status(&self) -> StartupResult<StartupStatus>;
}

/// The backend for platforms without an implementation: configuring is a
/// successful no-op and the status reads back as not configured, keeping
/// callers platform-agnostic.
#[derive(Debug)]
pub struct UnsupportedStartupBackend;

impl StartupBackend for UnsupportedStartupBackend {
    fn configure(&self, auto_launch: bool, silent_start: bool) -> StartupResult<()> {
        Ok(())
    }

    fn status(&self) -> StartupResult<StartupStatus> {
        Ok(StartupStatus::default())
    }
}

/// The manager: one backend, selected at construction.
#[derive(Debug)]
pub struct StartupManager<B: StartupBackend> {
    backend: B,
}

impl StartupManager<UnsupportedStartupBackend> {
    /// A manager with the no-platform backend; callers with a real platform
    /// construct one with [`StartupManager::new_with_backend`].
    pub fn new() -> StartupManager<UnsupportedStartupBackend> {
        StartupManager { backend: UnsupportedStartupBackend }
    }
}

impl<B: StartupBackend> StartupManager<B> {
    /// A manager around the given backend.
    pub fn new_with_backend(backend: B) -> StartupManager<B> {
        StartupManager { backend }
    }

    /// Registers or unregisters launch-at-login.
    pub fn configure(&self, auto_launch: bool, silent_start: bool) -> StartupResult<()> {
        self.backend.configure(auto_launch, silent_start)
    }

    /// Reads the current registration back from the OS.
    pub fn status(&self) -> StartupResult<StartupStatus> {
        self.backend.status()
    }
}

/// One character XML-escaped.
pub open spec fn xml_escape_char(c: char) -> Seq<char> {
    if c == '&' {
        "&amp;"@
    } else if c == '<' {
        "&lt;"@
    } else if c == '>' {
        "&gt;"@
    } else if c == '"' {
        "&quot;"@
    } else if c == '\'' {
        "&apos;"@
    } else {
        seq![c]
    }
}

/// The whole text XML-escaped.
pub open spec fn xml_escape_spec(s: Seq<char>) -> Seq<char>
    decreases s.len(),
{
    if s.len() == 0 {
        Seq::empty()
    } else {
        xml_escape_char(s[0]) + xml_escape_spec(s.drop_first())
    }
}

/// Escapes text for inclusion in an XML document.
pub fn escape_xml(input: &str) -> (r: String)
    ensures
        r@ == xml_escape_spec(input@),
{
    let chars = str_to_chars(input);
    let n = chars.len();
    let mut out: Vec<char> = Vec::new();
    proof {
        assert(chars@.skip(0) =~= chars@);
    }
    for i in 0..n
        invariant
            n == chars@.len(),
            chars@ == input@,
            xml_escape_spec(input@) =~= out@ + xml_escape_spec(chars@.skip(i as int)),
    {
        let ghost rest = chars@.skip(i as int);
        proof {
            assert(rest[0] == chars@[i as int]);
            assert(rest.drop_first() =~= chars@.skip(i + 1));
        }
        let c = chars[i];
        if c == '&' {
            append_str(&mut out, "&amp;");
        } else if c == '<' {
            append_str(&mut out, "&lt;");
        } else if c == '>' {
            append_str(&mut out, "&gt;");
        } else if c == '"' {
            append_str(&mut out, "&quot;");
        } else if c == '\'' {
            append_str(&mut out, "&apos;");
        } else {
            out.push(c);
        }
        assert(xml_escape_spec(input@) =~= out@ + xml_escape_spec(chars@.skip(i + 1)));
    }
    proof {
        assert(xml_escape_spec(chars@.skip(n as int)) =~= Seq::<char>::empty());
        assert(out@ =~= xml_escape_spec(input@));
    }
    chars_to_string(out.as_slice())
}

/// The argument strings block inside the launch agent: the escaped
/// executable, and the silent-start flag when requested.
pub open spec fn plist_args_spec(executable: Seq<char>, silent_start: bool) -> Seq<char> {
    let exe = "<string>"@ + xml_escape_spec(executable) + "</string>"@;
    if silent_start {
        exe + "\n        "@ + "<string>--silent-start</string>"@
    } else {
        exe
    }
}

/// The whole launch-agent property list for the given executable.
pub open spec fn plist_spec(executable: Seq<char>, silent_start: bool) -> Seq<char> {
    "<?xml version=\"1.0\" encoding=\"UTF-8\"?>\n<!DOCTYPE plist PUBLIC \"-//Apple//DTD PLIST 1.0//EN\" \"http://www.apple.com/DTDs/PropertyList-1.0.dtd\">\n<plist version=\"1.0\">\n<dict>\n    <key>Label</key>\n    <string>com.linkpad.desktop</string>\n    <key>ProgramArguments</key>\n    <array>\n        "@
        + plist_args_spec(executable, silent_start)
        + "\n    </array>\n    <key>RunAtLoad</key>\n    <true/>\n    <key>KeepAlive</key>\n    <false/>\n</dict>\n</plist>\n"@
}

/// Builds the launch-agent property list registering the executable for
/// launch-at-login, with the silent-start flag as an extra argument when
/// requested.
pub fn build_launch_agent_plist(executable: &str, silent_start: bool) -> (r: String)
    ensures
        r@ == plist_spec(executable@, silent_start),
{
    let mut out = str_to_chars(
        "<?xml version=\"1.0\" encoding=\"UTF-8\"?>\n<!DOCTYPE plist PUBLIC \"-//Apple//DTD PLIST 1.0//EN\" \"http://www.apple.com/DTDs/PropertyList-1.0.dtd\">\n<plist version=\"1.0\">\n<dict>\n    <key>Label</key>\n    <string>com.linkpad.desktop</string>\n    <key>ProgramArguments</key>\n    <array>\n        ",
    );
    append_str(&mut out, "<string>");
    let escaped = escape_xml(executable);
    append_str(&mut out, escaped.as_str());
    append_str(&mut out, "</string>");
    if silent_start {
        append_str(&mut out, "\n        ");
        append_str(&mut out, "<string>--silent-start</string>");
    }
    append_str(
        &mut out,
        "\n    </array>\n    <key>RunAtLoad</key>\n    <true/>\n    <key>KeepAlive</key>\n    <false/>\n</dict>\n</plist>\n",
    );
    proof {
        assert(out@ =~= plist_spec(executable@, silent_start));
    }
    chars_to_string(out.as_slice())
}

/// A registered launch agent's status: registration is presence; silence is
/// the flag argument appearing in the descriptor.
pub fn parse_launch_agent_status(content: &str) -> (r: StartupStatus)
    ensures
        r.auto_launch,
        r.silent_start == contains_sub(content@, "<string>--silent-start</string>"@),
{
    let chars = str_to_chars(content);
    let marker = str_to_chars("<string>--silent-start</string>");
    StartupStatus {
        auto_launch: true,
        silent_start: contains_chars(chars.as_slice(), marker.as_slice()),
    }
}

/// One character with a double quote escaped for a Windows command line.
pub open spec fn win_escape_char(c: char) -> Seq<char> {
    if c == '"' {
        seq!['\\', '"']
    } else {
        seq![c]
    }
}

/// The whole text with double quotes escaped.
pub open spec fn win_escape_spec(s: Seq<char>) -> Seq<char>
    decreases s.len(),
{
    if s.len() == 0 {
        Seq::empty()
    } else {
        win_escape_char(s[0]) + win_escape_spec(s.drop_first())
    }
}

/// The Run-key command line registering the executable: quoted, with the
/// silent-start flag appended when requested.
pub open spec fn win_run_command_spec(executable: Seq<char>, silent_start: bool) -> Seq<char> {
    let quoted = seq!['"'] + win_escape_spec(executable) + seq!['"'];
    if silent_start {
        quoted + " --silent-start"@
    } else {
        quoted
    }
}

/// Builds the Windows Run-key command line for the executable.
pub fn build_windows_run_command(executable: &str, silent_start: bool) -> (r: String)
    ensures
        r@ == win_run_command_spec(executable@, silent_start),
{
    let chars = str_to_chars(executable);
    let n = chars.len();
    let mut out: Vec<char> = Vec::new();
    out.push('"');
    proof {
        assert(out@ =~= seq!['"'] + win_escape_spec(executable@.subrange(0, 0)));
    }
    for i in 0..n
        invariant
            n == chars@.len(),
            chars@ == executable@,
            out@ =~= seq!['"'] + win_escape_spec(executable@.subrange(0, i as int)),
    {
        let ghost pre = executable@.subrange(0, i as int);
        proof {
            assert(executable@.subrange(0, i + 1) =~= pre.push(executable@[i as int]));
            lemma_win_escape_push(pre, executable@[i as int]);
        }
        let c = chars[i];
        if c == '"' {
            out.push('\\');
            out.push('"');
        } else {
            out.push(c);
        }
        assert(out@ =~= seq!['"'] + win_escape_spec(executable@.subrange(0, i + 1)));
    }
    proof {
        assert(executable@.subrange(0, n as int) =~= executable@);
    }
    out.push('"');
    if silent_start {
        append_str(&mut out, " --silent-start");
    }
    proof {
        assert(out@ =~= win_run_command_spec(executable@, silent_start));
    }
    chars_to_string(out.as_slice())
}

proof fn lemma_win_escape_push(s: Seq<char>, c: char)
    ensures
        win_escape_spec(s.push(c)) == win_escape_spec(s) + win_escape_char(c),
    decreases s.len(),
{
    if s.len() == 0 {
        let sc = s.push(c);
        assert(sc[0] == c);
        assert(sc.drop_first() =~= Seq::<char>::empty());
        assert(win_escape_spec(sc) == win_escape_char(c) + win_escape_spec(sc.drop_first()));
        assert(win_escape_char(c) + win_escape_spec(sc.drop_first()) =~= win_escape_char(c));
        assert(win_escape_spec(s) + win_escape_char(c) =~= win_escape_char(c));
    } else {
        lemma_win_escape_push(s.drop_first(), c);
        assert(s.push(c).drop_first() =~= s.drop_first().push(c));
        assert(s.push(c)[0] == s[0]);
        assert(win_escape_char(s[0]) + (win_escape_spec(s.drop_first()) + win_escape_char(c))
            =~= (win_escape_char(s[0]) + win_escape_spec(s.drop_first())) + win_escape_char(c));
    }
}

/// A registered Run-key command line's status: registration is presence;
/// silence is the flag appearing as a whitespace-separated argument,
/// compared case-insensitively.
pub fn parse_windows_run_status(command_line: &str) -> (r: StartupStatus)
    ensures
        r.auto_launch,
        r.silent_start == (exists|i: int|
            0 <= i < split_ws_spec(command_line@).len() && lower_seq(
                #[trigger] split_ws_spec(command_line@)[i],
            ) == lower_seq("--silent-start"@)),
{
    let chars = str_to_chars(command_line);
    let tokens = split_ws(chars.as_slice());
    let flag = str_to_chars("--silent-start");
    let n = tokens.len();
    let mut silent = false;
    for i in 0..n
        invariant
            n == tokens@.len(),
            flag@ == "--silent-start"@,
            tokens.deep_view() == split_ws_spec(command_line@),
            silent == exists|j: int|
                0 <= j < i && lower_seq(#[trigger] tokens.deep_view()[j]) == lower_seq(
                    "--silent-start"@,
                ),
    {
        proof {
            assert(tokens.deep_view()[i as int] == tokens@[i as int]@);
        }
        if eq_ignore_case(tokens[i].as_slice(), flag.as_slice()) {
            silent = true;
        }
        proof {
            if silent {
                assert(exists|j: int|
                    0 <= j < i + 1 && lower_seq(#[trigger] tokens.deep_view()[j]) == lower_seq(
                        "--silent-start"@,
                    ));
            }
        }
    }
    StartupStatus { auto_launch: true, silent_start: silent }
}

/// Reads the value data of a named value out of `reg query` output: the
/// first line whose first token is the value name, split after its
/// `REG_SZ` or `REG_EXPAND_SZ` type tag.
pub open spec fn reg_value_of_line(line: Seq<char>, value_name: Seq<char>) -> Option<Seq<char>> {
    let t = trim_spec(line);
    let toks = split_ws_spec(t);
    if t.len() == 0 || toks.len() == 0 || lower_seq(toks[0]) != lower_seq(value_name) {
        None
    } else {
        let isz = crate::ingest::first_occurrence(t, "REG_SZ"@);
        let iesz = crate::ingest::first_occurrence(t, "REG_EXPAND_SZ"@);
        if isz >= 0 {
            Some(trim_spec(t.skip(isz + 6)))
        } else if iesz >= 0 {
            Some(trim_spec(t.skip(iesz + 13)))
        } else {
            None
        }
    }
}

/// The first line of the output that yields a value.
pub open spec fn reg_value_spec(lines: Seq<Seq<char>>, value_name: Seq<char>) -> Option<Seq<char>>
    decreases lines.len(),
{
    if lines.len() == 0 {
        None
    } else {
        match reg_value_of_line(lines[0], value_name) {
            Some(v) => Some(v),
            None => reg_value_spec(lines.drop_first(), value_name),
        }
    }
}

/// Parses the data of a named registry value out of `reg query` output.
pub fn parse_reg_query_value(output: &str, value_name: &str) -> (r: Option<String>)
    ensures
        match r {
            Some(v) => reg_value_spec(split_lines_spec(output@), value_name@) == Some(v@),
            None => reg_value_spec(split_lines_spec(output@), value_name@) is None,
        },
{
    let chars = str_to_chars(output);
    let lines = crate::text::split_lines(chars.as_slice());
    let vn = str_to_chars(value_name);
    let n = lines.len();
    let ghost ls = lines.deep_view();
    proof {
        assert(ls.skip(0) =~= ls);
    }
    for i in 0..n
        invariant
            n == lines@.len(),
            ls == lines.deep_view(),
            vn@ == value_name@,
            reg_value_spec(split_lines_spec(output@), value_name@) == reg_value_spec(
                ls.skip(i as int),
                value_name@,
            ),
    {
        let ghost rest = ls.skip(i as int);
        proof {
            assert(rest[0] == ls[i as int]);
            assert(rest.drop_first() =~= ls.skip(i + 1));
            assert(lines.deep_view()[i as int] == lines@[i as int]@);
        }
        let t = trim(lines[i].as_slice());
        let toks = split_ws(t.as_slice());
        let mut line_value: Option<String> = None;
        if t.len() > 0 && toks.len() > 0 {
            proof {
                assert(toks.deep_view()[0] == toks@[0]@);
            }
            if eq_ignore_case(toks[0].as_slice(), vn.as_slice()) {
                let sz = str_to_chars("REG_SZ");
                let esz = str_to_chars("REG_EXPAND_SZ");
                proof {
                    crate::ingest::lemma_first_occurrence(t@, "REG_SZ"@);
                    crate::ingest::lemma_first_occurrence(t@, "REG_EXPAND_SZ"@);
                    reveal_strlit("REG_SZ");
                    reveal_strlit("REG_EXPAND_SZ");
                }
                match crate::text::find_sub(t.as_slice(), sz.as_slice()) {
                    Some(p) => {
                        proof {
                            let fo = crate::ingest::first_occurrence(t@, "REG_SZ"@);
                            assert(crate::text::contains_sub(t@, "REG_SZ"@)) by {
                                assert(crate::text::occurs_at(t@, "REG_SZ"@, p as int));
                            }
                            if fo < p {
                                assert(crate::text::occurs_at(t@, "REG_SZ"@, fo));
                            }
                            if fo > p {
                                assert(!crate::text::occurs_at(t@, "REG_SZ"@, p as int));
                            }
                            assert(fo == p);
                        }
                        let after = sub_vec(t.as_slice(), p + 6, t.len());
                        let tv = trim(after.as_slice());
                        proof {
                            assert(after@ =~= t@.skip(p + 6));
                        }
                        line_value = Some(chars_to_string(tv.as_slice()));
                    },
                    None => {
                        match crate::text::find_sub(t.as_slice(), esz.as_slice()) {
                            Some(p) => {
                                proof {
                                    let fo = crate::ingest::first_occurrence(
                                        t@,
                                        "REG_EXPAND_SZ"@,
                                    );
                                    assert(crate::text::contains_sub(t@, "REG_EXPAND_SZ"@)) by {
                                        assert(crate::text::occurs_at(
                                            t@,
                                            "REG_EXPAND_SZ"@,
                                            p as int,
                                        ));
                                    }
                                    if fo < p {
                                        assert(crate::text::occurs_at(t@, "REG_EXPAND_SZ"@, fo));
                                    }
                                    if fo > p {
                                        assert(!crate::text::occurs_at(
                                            t@,
                                            "REG_EXPAND_SZ"@,
                                            p as int,
                                        ));
                                    }
                                    assert(fo == p);
                                }
                                let after = sub_vec(t.as_slice(), p + 13, t.len());
                                let tv = trim(after.as_slice());
                                proof {
                                    assert(after@ =~= t@.skip(p + 13));
                                }
                                line_value = Some(chars_to_string(tv.as_slice()));
                            },
                            None => {},
                        }
                    },
                }
            }
        }
        match line_value {
            Some(v) => {
                proof {
                    assert(reg_value_of_line(ls[i as int], value_name@) == Some(v@));
                }
                return Some(v);
            },
            None => {
                proof {
                    assert(reg_value_of_line(ls[i as int], value_name@) is None);
                }
            },
        }
    }
    proof {
        assert(reg_value_spec(ls.skip(n as int), value_name@) is None);
    }
    None
}

} // verus!

verus! {

/// The registry command that registers the Run-key entry for the given
/// command line.
pub fn windows_install_run_args(run_command: &str) -> (r: Vec<String>)
    ensures
        r.deep_view() =~= seq![
            "add"@,
            "HKCU\\Software\\Microsoft\\Windows\\CurrentVersion\\Run"@,
            "/v"@,
            "Linkpad"@,
            "/t"@,
            "REG_SZ"@,
            "/d"@,
            run_command@,
            "/f"@,
        ],
{
    let mut r: Vec<String> = Vec::new();
    crate::text::push_deep(&mut r, "add".to_owned());
    crate::text::push_deep(
        &mut r,
        "HKCU\\Software\\Microsoft\\Windows\\CurrentVersion\\Run".to_owned(),
    );
    crate::text::push_deep(&mut r, "/v".to_owned());
    crate::text::push_deep(&mut r, "Linkpad".to_owned());
    crate::text::push_deep(&mut r, "/t".to_owned());
    crate::text::push_deep(&mut r, "REG_SZ".to_owned());
    crate::text::push_deep(&mut r, "/d".to_owned());
    crate::text::push_deep(&mut r, run_command.to_owned());
    crate::text::push_deep(&mut r, "/f".to_owned());
    r
}

/// The registry command that removes the Run-key entry.
pub fn windows_remove_run_args() -> (r: Vec<String>)
    ensures
        r.deep_view() =~= seq![
            "delete"@,
            "HKCU\\Software\\Microsoft\\Windows\\CurrentVersion\\Run"@,
            "/v"@,
            "Linkpad"@,
            "/f"@,
        ],
{
    let mut r: Vec<String> = Vec::new();
    crate::text::push_deep(&mut r, "delete".to_owned());
    crate::text::push_deep(
        &mut r,
        "HKCU\\Software\\Microsoft\\Windows\\CurrentVersion\\Run".to_owned(),
    );
    crate::text::push_deep(&mut r, "/v".to_owned());
    crate::text::push_deep(&mut r, "Linkpad".to_owned());
    crate::text::push_deep(&mut r, "/f".to_owned());
    r
}

/// The registry command that reads the Run-key entry back.
pub fn windows_query_run_args() -> (r: Vec<String>)
    ensures
        r.deep_view() =~= seq![
            "query"@,
            "HKCU\\Software\\Microsoft\\Windows\\CurrentVersion\\Run"@,
            "/v"@,
            "Linkpad"@,
        ],
{
    let mut r: Vec<String> = Vec::new();
    crate::text::push_deep(&mut r, "query".to_owned());
    crate::text::push_deep(
        &mut r,
        "HKCU\\Software\\Microsoft\\Windows\\CurrentVersion\\Run".to_owned(),
    );
    crate::text::push_deep(&mut r, "/v".to_owned());
    crate::text::push_deep(&mut r, "Linkpad".to_owned());
    r
}

/// A Run-key removal outcome: a missing entry (reported as exit code one) is
/// not an error.
pub fn windows_remove_outcome(success: bool, exit_code_one: bool) -> (r: bool)
    ensures
        r == (success || exit_code_one),
{
    success || exit_code_one
}

} // verus!
