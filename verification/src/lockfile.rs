//! Credential discovery: parsing and serializing the client's lockfile
//! line, and extracting credentials from the client process command line.

use vstd::prelude::*;

use crate::num::{
    all_digits, dec_digits, dec_val, is_digit_char, lemma_dec_digits_wf, lemma_parse_u16_of_digits,
    lemma_parse_u32_of_digits, parse_u16_str, parse_u32_str, spec_parse_u16, spec_parse_u32,
    u32_to_string,
};
use crate::text::{
    first_line, first_line_str, first_token, first_token_str, is_space_char, lacks_char,
    lemma_first_line_lacks_newline, lemma_split_char_append, lemma_split_char_fields_lack,
    lemma_split_char_no_sep, lemma_trim_ends_bare, lemma_trim_lacks, lemma_trim_stable,
    split_char, split_str_on, trim, trim_str,
};

verus! {

/// The credentials of the client's local REST API, as carried by its
/// lockfile: `ProcessName:ProcessId:Port:Password:Protocol`.
#[derive(Debug, Clone)]
pub struct LockfileData {
    pub process_name: String,
    pub process_id: u32,
    pub port: u16,
    pub password: String,
    pub protocol: String,
}

/// Mathematical model of [`LockfileData`].
#[verifier::ext_equal]
pub struct LockfileModel {
    pub process_name: Seq<char>,
    pub process_id: u32,
    pub port: u16,
    pub password: Seq<char>,
    pub protocol: Seq<char>,
}

impl View for LockfileData {
    type V = LockfileModel;

    open spec fn view(&self) -> LockfileModel {
        LockfileModel {
            process_name: self.process_name@,
            process_id: self.process_id,
            port: self.port,
            password: self.password@,
            protocol: self.protocol@,
        }
    }
}

/// The first line of a lockfile, with the carriage return of a `\r\n`
/// line break stripped.
pub open spec fn lockfile_line(s: Seq<char>) -> Seq<char> {
    let l = first_line(s);
    if l.len() < s.len() && l.len() > 0 && l.last() == '\r' {
        l.drop_last()
    } else {
        l
    }
}

/// What parsing a lockfile yields: the five colon-delimited fields of its
/// first line, with numeric process id and port and a trimmed protocol.
pub open spec fn spec_parse_lockfile(s: Seq<char>) -> Result<LockfileModel, Seq<char>> {
    if s.len() == 0 {
        Err("Lockfile is empty"@)
    } else {
        let parts = split_char(lockfile_line(s), ':');
        if parts.len() != 5 {
            Err("Invalid lockfile format"@)
        } else {
            match spec_parse_u32(parts[1]) {
                None => Err("Failed to parse process ID"@),
                Some(pid) => match spec_parse_u16(parts[2]) {
                    None => Err("Failed to parse port"@),
                    Some(port) => Ok(
                        LockfileModel {
                            process_name: parts[0],
                            process_id: pid,
                            port: port,
                            password: parts[3],
                            protocol: trim(parts[4]),
                        },
                    ),
                },
            }
        }
    }
}

/// Parse lockfile contents (format: `ProcessName:ProcessId:Port:Password:Protocol`).
pub fn parse_lockfile_contents(contents: &str) -> (r: Result<LockfileData, String>)
    ensures
        match r {
            Ok(d) => spec_parse_lockfile(contents@) == Ok::<LockfileModel, Seq<char>>(d@),
            Err(e) => spec_parse_lockfile(contents@) == Err::<LockfileModel, Seq<char>>(e@),
        },
{
    let n = contents.unicode_len();
    if n == 0 {
        return Err("Lockfile is empty".to_owned());
    }
    let raw = first_line_str(contents);
    let raw_len = raw.as_str().unicode_len();
    let line: String = if raw_len < n && raw_len > 0 && raw.as_str().get_char(raw_len - 1)
        == '\r' {
        proof {
            assert(first_line(contents@).drop_last() =~= raw@.subrange(0, raw_len - 1));
        }
        raw.as_str().substring_char(0, raw_len - 1).to_owned()
    } else {
        raw
    };
    assert(line@ == lockfile_line(contents@));
    let parts = split_str_on(line.as_str(), ':');
    if parts.len() != 5 {
        return Err("Invalid lockfile format".to_owned());
    }
    let process_id = match parse_u32_str(parts[1].as_str()) {
        Some(pid) => pid,
        None => {
            return Err("Failed to parse process ID".to_owned());
        },
    };
    let port = match parse_u16_str(parts[2].as_str()) {
        Some(p) => p,
        None => {
            return Err("Failed to parse port".to_owned());
        },
    };
    let protocol = trim_str(parts[4].as_str());
    let d = LockfileData {
        process_name: parts[0].clone(),
        process_id,
        port,
        password: parts[3].clone(),
        protocol,
    };
    proof {
        let m = spec_parse_lockfile(contents@)->Ok_0;
        assert(d@ =~= m);
    }
    Ok(d)
}

/// The canonical one-line form of the credentials, five fields joined by
/// colons.
pub open spec fn spec_serialize_lockfile(m: LockfileModel) -> Seq<char> {
    m.process_name + ":"@ + dec_digits(m.process_id as nat) + ":"@ + dec_digits(m.port as nat)
        + ":"@ + m.password + ":"@ + m.protocol
}

/// Serialize credentials back into the lockfile line format.
pub fn serialize_lockfile_contents(d: &LockfileData) -> (r: String)
    ensures
        r@ == spec_serialize_lockfile(d@),
{
    let mut s = d.process_name.clone();
    s.append(":");
    let pid = u32_to_string(d.process_id);
    s.append(pid.as_str());
    s.append(":");
    let port = u32_to_string(d.port as u32);
    s.append(port.as_str());
    s.append(":");
    s.append(d.password.as_str());
    s.append(":");
    s.append(d.protocol.as_str());
    assert(port@ == dec_digits(d.port as nat));
    s
}

/// A serializable set of credential fields: text fields hold neither the
/// colon separator nor a line break, and the protocol carries no
/// surrounding whitespace.
pub open spec fn lockfile_wf(m: LockfileModel) -> bool {
    &&& forall|i: int|
        0 <= i < m.process_name.len() ==> #[trigger] m.process_name[i] != ':'
            && m.process_name[i] != '\n'
    &&& forall|i: int|
        0 <= i < m.password.len() ==> #[trigger] m.password[i] != ':' && m.password[i] != '\n'
    &&& forall|i: int|
        0 <= i < m.protocol.len() ==> #[trigger] m.protocol[i] != ':' && m.protocol[i] != '\n'
    &&& m.protocol.len() == 0 || (!is_space_char(m.protocol[0]) && !is_space_char(
        m.protocol.last(),
    ))
}

proof fn lemma_digits_plain(s: Seq<char>)
    requires
        all_digits(s),
    ensures
        forall|i: int| 0 <= i < s.len() ==> #[trigger] s[i] != ':' && s[i] != '\n',
{
    assert forall|i: int| 0 <= i < s.len() implies #[trigger] s[i] != ':' && s[i] != '\n' by {
        assert(is_digit_char(s[i]));
    }
}

/// Parsing the serialized form of any serializable credentials recovers
/// exactly the fields that were written.
pub proof fn lemma_lockfile_round_trip(m: LockfileModel)
    requires
        lockfile_wf(m),
    ensures
        spec_parse_lockfile(spec_serialize_lockfile(m)) == Ok::<LockfileModel, Seq<char>>(m),
{
    reveal_strlit(":");
    let colon = ":"@;
    assert(colon =~= seq![':']);
    let d1 = dec_digits(m.process_id as nat);
    let d2 = dec_digits(m.port as nat);
    lemma_dec_digits_wf(m.process_id as nat);
    lemma_dec_digits_wf(m.port as nat);
    lemma_digits_plain(d1);
    lemma_digits_plain(d2);
    let s = spec_serialize_lockfile(m);
    let p1 = m.process_name;
    let p2 = p1 + colon + d1;
    let p3 = p2 + colon + d2;
    let p4 = p3 + colon + m.password;
    assert(s =~= p4 + colon + m.protocol);
    assert(s.len() > 0);
    assert forall|j: int| 0 <= j < s.len() implies s[j] != '\n' by {}
    crate::text::lemma_first_line_whole(s);
    assert(lockfile_line(s) == s);
    assert(s =~= p4.push(':') + m.protocol);
    lemma_split_char_append(p4, m.protocol, ':');
    assert(p4 =~= p3.push(':') + m.password);
    lemma_split_char_append(p3, m.password, ':');
    assert(p3 =~= p2.push(':') + d2);
    lemma_split_char_append(p2, d2, ':');
    assert(p2 =~= p1.push(':') + d1);
    lemma_split_char_append(p1, d1, ':');
    lemma_split_char_no_sep(p1, ':');
    let parts = split_char(lockfile_line(s), ':');
    assert(parts =~~= seq![p1, d1, d2, m.password, m.protocol]);
    lemma_parse_u32_of_digits(m.process_id);
    lemma_parse_u16_of_digits(m.port);
    lemma_trim_stable(m.protocol);
    assert(spec_parse_lockfile(s)->Ok_0 =~= m);
}

/// Any contents that parse at all yield serializable fields, so the
/// string-side round trip holds too: parse, serialize, and parse again,
/// and the second parse recovers exactly the first one's field values.
pub proof fn lemma_parse_then_serialize_round_trip(s: Seq<char>)
    requires
        spec_parse_lockfile(s) is Ok,
    ensures
        lockfile_wf(spec_parse_lockfile(s)->Ok_0),
        spec_parse_lockfile(spec_serialize_lockfile(spec_parse_lockfile(s)->Ok_0))
            == spec_parse_lockfile(s),
{
    let line = lockfile_line(s);
    let parts = split_char(line, ':');
    let m = spec_parse_lockfile(s)->Ok_0;
    lemma_first_line_lacks_newline(s);
    assert(lacks_char(line, '\n')) by {
        let l = first_line(s);
        if l.len() < s.len() && l.len() > 0 && l.last() == '\r' {
            assert forall|i: int| 0 <= i < line.len() implies line[i] != '\n' by {
                assert(line[i] == l[i]);
            }
        }
    }
    lemma_split_char_fields_lack(line, ':', ':');
    lemma_split_char_fields_lack(line, ':', '\n');
    lemma_trim_lacks(parts[4], ':');
    lemma_trim_lacks(parts[4], '\n');
    lemma_trim_ends_bare(parts[4]);
    assert(lockfile_wf(m));
    lemma_lockfile_round_trip(m);
}

/// The command-line flag carrying the API port, followed by its digits.
pub open spec fn port_flag() -> Seq<char> {
    "--app-port="@
}

pub open spec fn port_flag_at(s: Seq<char>, i: int) -> bool {
    let f = port_flag().len() as int;
    &&& 0 <= i
    &&& i + f < s.len()
    &&& s.subrange(i, i + f) == port_flag()
    &&& is_digit_char(s[i + f])
}

/// The digit group the port pattern captures: at the leftmost occurrence
/// of the flag that is followed by a digit, the longest run of digits.
pub open spec fn is_port_capture(s: Seq<char>, i: int, d: Seq<char>) -> bool {
    let f = port_flag().len() as int;
    &&& port_flag_at(s, i)
    &&& forall|j: int| 0 <= j < i ==> !port_flag_at(s, j)
    &&& d.len() >= 1
    &&& i + f + d.len() <= s.len()
    &&& d == s.subrange(i + f, i + f + d.len())
    &&& all_digits(d)
    &&& (i + f + d.len() == s.len() || !is_digit_char(s[i + f + d.len()]))
}

/// Relies on regex::Regex::captures with the pattern `--app-port=([0-9]+)`:
/// the overall match is the leftmost one, and the group takes the digits
/// greedily, so the capture is the longest digit run after the leftmost
/// occurrence of the flag that is followed by a digit.
#[verifier::external_body]
fn capture_app_port(s: &str) -> (r: Option<String>)
    ensures
        match r {
            Some(d) => exists|i: int| is_port_capture(s@, i, d@),
            None => forall|i: int| !port_flag_at(s@, i),
        },
{
    let re = regex::Regex::new(r"--app-port=([0-9]+)").ok()?;
    Some(re.captures(s)?.get(1)?.as_str().to_string())
}

/// The command-line flag carrying the auth token.
pub open spec fn token_flag() -> Seq<char> {
    "--remoting-auth-token="@
}

pub open spec fn token_flag_at(s: Seq<char>, i: int) -> bool {
    let f = token_flag().len() as int;
    &&& 0 <= i
    &&& i + f <= s.len()
    &&& s.subrange(i, i + f) == token_flag()
}

/// ASCII characters of the token pattern's class `[\w-]`; the class also
/// admits further word characters beyond ASCII.
pub open spec fn is_word_char(c: char) -> bool {
    is_digit_char(c) || ('a' <= c && c <= 'z') || ('A' <= c && c <= 'Z') || c == '_' || c == '-'
}

/// The token capture: it sits right after the leftmost occurrence of the
/// flag that a word character follows, every ASCII character in it lies
/// in the matched class, and the character after it (if any) ends that
/// class. Beyond ASCII the class admits further word characters, so the
/// leftmostness and ending clauses speak of ASCII word characters only,
/// which every matched class necessarily excludes or includes as stated.
pub open spec fn is_token_capture(s: Seq<char>, i: int, t: Seq<char>) -> bool {
    let f = token_flag().len() as int;
    &&& token_flag_at(s, i)
    &&& forall|j: int|
        0 <= j < i && token_flag_at(s, j) ==> j + f == s.len() || !is_word_char(s[j + f])
    &&& t.len() >= 1
    &&& i + f + t.len() <= s.len()
    &&& t == s.subrange(i + f, i + f + t.len())
    &&& forall|k: int| 0 <= k < t.len() && (t[k] as u32) <= 127 ==> is_word_char(#[trigger] t[k])
    &&& (i + f + t.len() == s.len() || !is_word_char(s[i + f + t.len()]))
}

/// Relies on regex::Regex::captures with the pattern
/// `--remoting-auth-token=([\w-]+)`: the leftmost match, with the group
/// matched greedily. The class `[\w-]` is exactly the ASCII word
/// characters and `-` on ASCII, and wider beyond it, so the contract
/// claims only what holds either way: within ASCII the capture's
/// characters lie in the class and its ends bound it, while no earlier
/// flag occurrence is followed by an ASCII word character; and a match
/// is found whenever the flag is followed by an ASCII word character.
#[verifier::external_body]
fn capture_auth_token(s: &str) -> (r: Option<String>)
    ensures
        match r {
            Some(t) => exists|i: int| is_token_capture(s@, i, t@),
            None => forall|i: int|
                token_flag_at(s@, i) ==> i + token_flag().len() == s@.len() || !is_word_char(
                    s@[i + token_flag().len()],
                ),
        },
{
    let re = regex::Regex::new(r"--remoting-auth-token=([\w-]+)").ok()?;
    Some(re.captures(s)?.get(1)?.as_str().to_string())
}

/// The port capture is unique: the contract of the port wrapper pins the
/// digits, and with them the extracted port value.
pub proof fn lemma_port_capture_unique(s: Seq<char>, i1: int, t1: Seq<char>, i2: int, t2: Seq<char>)
    requires
        is_port_capture(s, i1, t1),
        is_port_capture(s, i2, t2),
    ensures
        i1 == i2,
        t1 == t2,
{
    let f = port_flag().len() as int;
    assert(i1 == i2);
    if t1.len() < t2.len() {
        assert(is_digit_char(t2[t1.len() as int]));
        assert(s[i1 + f + t1.len()] == t2[t1.len() as int]);
    } else if t2.len() < t1.len() {
        assert(is_digit_char(t1[t2.len() as int]));
        assert(s[i1 + f + t2.len()] == t1[t2.len() as int]);
    }
    assert(t1 =~= t2);
}

/// On an all-ASCII command line the token capture is unique too: the
/// wrapper's contract pins the extracted password. (Beyond ASCII the
/// class `[\w-]` admits characters the contract cannot name.)
pub proof fn lemma_token_capture_unique(
    s: Seq<char>,
    i1: int,
    t1: Seq<char>,
    i2: int,
    t2: Seq<char>,
)
    requires
        is_token_capture(s, i1, t1),
        is_token_capture(s, i2, t2),
        forall|k: int| 0 <= k < s.len() ==> (#[trigger] s[k] as u32) <= 127,
    ensures
        i1 == i2,
        t1 == t2,
{
    let f = token_flag().len() as int;
    if i1 < i2 {
        assert(is_word_char(t1[0]));
        assert(s[i1 + f] == t1[0]);
    } else if i2 < i1 {
        assert(is_word_char(t2[0]));
        assert(s[i2 + f] == t2[0]);
    }
    assert(i1 == i2);
    if t1.len() < t2.len() {
        assert(is_word_char(t2[t1.len() as int]));
        assert(s[i1 + f + t1.len()] == t2[t1.len() as int]);
    } else if t2.len() < t1.len() {
        assert(is_word_char(t1[t2.len() as int]));
        assert(s[i1 + f + t2.len()] == t1[t2.len() as int]);
    }
    assert(t1 =~= t2);
}

/// The process id read from the head of a `ps` output line, `0` when the
/// line does not begin with a number.
pub open spec fn spec_pid_or_zero(s: Seq<char>) -> u32 {
    match spec_parse_u32(first_token(s)) {
        Some(p) => p,
        None => 0,
    }
}

/// Try to extract the process id from the beginning of the command line.
pub fn extract_process_id(commandline: &str) -> (r: Option<u32>)
    ensures
        r == spec_parse_u32(first_token(commandline@)),
{
    let token = first_token_str(commandline);
    parse_u32_str(token.as_str())
}

/// What successful command-line extraction yields.
pub open spec fn extraction_ok(s: Seq<char>, m: LockfileModel) -> bool {
    &&& exists|i: int, d: Seq<char>|
        is_port_capture(s, i, d) && dec_val(d) <= u16::MAX && m.port == dec_val(d)
    &&& exists|i: int| is_token_capture(s, i, m.password)
    &&& m.password.len() >= 1
    &&& m.process_name == "LeagueClient"@
    &&& m.protocol == "https"@
    &&& m.process_id == spec_pid_or_zero(s)
}

/// The failures of command-line extraction, each with its message.
pub open spec fn extraction_err(s: Seq<char>, e: Seq<char>) -> bool {
    ||| (e == "Could not find --app-port in process commandline"@ && (forall|i: int|
        !port_flag_at(s, i)))
    ||| (e == "Failed to parse port number"@ && (exists|i: int, d: Seq<char>|
        is_port_capture(s, i, d) && dec_val(d) > u16::MAX))
    ||| (e == "Could not find --remoting-auth-token in process commandline"@ && (forall|i: int|
        token_flag_at(s, i) ==> i + token_flag().len() == s.len() || !is_word_char(
            s[i + token_flag().len()],
        )))
}

/// Extract credentials from the client process command line. The port is
/// the digit group after `--app-port=`, the password the token after
/// `--remoting-auth-token=`; the protocol is always `https`.
pub fn extract_credentials(commandline: &str) -> (r: Result<LockfileData, String>)
    ensures
        match r {
            Ok(d) => extraction_ok(commandline@, d@),
            Err(e) => extraction_err(commandline@, e@),
        },
{
    let digits = match capture_app_port(commandline) {
        Some(d) => d,
        None => {
            return Err("Could not find --app-port in process commandline".to_owned());
        },
    };
    proof {
        let i = choose|i: int| is_port_capture(commandline@, i, digits@);
        assert(is_digit_char(digits@[0]));
        assert(crate::num::numeral_body(digits@) =~= digits@);
    }
    let port = match parse_u16_str(digits.as_str()) {
        Some(p) => p,
        None => {
            return Err("Failed to parse port number".to_owned());
        },
    };
    let password = match capture_auth_token(commandline) {
        Some(t) => t,
        None => {
            return Err("Could not find --remoting-auth-token in process commandline".to_owned());
        },
    };
    let process_id = match extract_process_id(commandline) {
        Some(pid) => pid,
        None => 0,
    };
    proof {
        let i = choose|i: int| is_token_capture(commandline@, i, password@);
        assert(password@.len() >= 1);
    }
    Ok(
        LockfileData {
            process_name: "LeagueClient".to_owned(),
            process_id,
            port,
            password,
            protocol: "https".to_owned(),
        },
    )
}

/// The first candidate lockfile that parses wins.
pub open spec fn probe_ok(cs: Seq<Seq<char>>, m: LockfileModel) -> bool {
    exists|k: int|
        0 <= k < cs.len() && #[trigger] spec_parse_lockfile(cs[k]) == Ok::<
            LockfileModel,
            Seq<char>,
        >(m) && (forall|j: int| 0 <= j < k ==> spec_parse_lockfile(cs[j]) is Err)
}

pub open spec fn probe_all_fail(cs: Seq<Seq<char>>) -> bool {
    forall|k: int| 0 <= k < cs.len() ==> #[trigger] spec_parse_lockfile(cs[k]) is Err
}

/// Probe the contents of the candidate lockfiles, in path order; the
/// first one that parses yields the credentials.
pub fn read_lockfile_from_path(candidates: &Vec<String>) -> (r: Result<LockfileData, String>)
    ensures
        match r {
            Ok(d) => probe_ok(candidates.deep_view(), d@),
            Err(e) => probe_all_fail(candidates.deep_view()) && e@
                == "Lockfile not found in common locations"@,
        },
{
    let mut k: usize = 0;
    while k < candidates.len()
        invariant
            k <= candidates@.len(),
            forall|j: int|
                0 <= j < k ==> #[trigger] spec_parse_lockfile(candidates.deep_view()[j]) is Err,
        decreases candidates@.len() - k,
    {
        match parse_lockfile_contents(candidates[k].as_str()) {
            Ok(d) => {
                proof {
                    assert(candidates.deep_view()[k as int] == candidates@[k as int]@);
                    assert(spec_parse_lockfile(candidates.deep_view()[k as int]) == Ok::<
                        LockfileModel,
                        Seq<char>,
                    >(d@));
                }
                return Ok(d);
            },
            Err(_) => {},
        }
        k += 1;
    }
    Err("Lockfile not found in common locations".to_owned())
}

/// Resolve credentials: probe the candidate lockfile contents first, then
/// fall back to extraction from the client process command line, when one
/// was found.
pub fn read_lockfile(candidates: &Vec<String>, commandline: &Option<String>) -> (r: Result<
    LockfileData,
    String,
>)
    ensures
        match r {
            Ok(d) => probe_ok(candidates.deep_view(), d@) || (probe_all_fail(candidates.deep_view())
                && match *commandline {
                Some(cl) => extraction_ok(cl@, d@),
                None => false,
            }),
            Err(e) => probe_all_fail(candidates.deep_view()) && match *commandline {
                Some(cl) => extraction_err(cl@, e@),
                None => e@
                    == "LeagueClientUx process not found. Make sure League of Legends client is running."@,
            },
        },
{
    match read_lockfile_from_path(candidates) {
        Ok(d) => Ok(d),
        Err(_) => match commandline {
            Some(cl) => extract_credentials(cl.as_str()),
            None => Err(
                "LeagueClientUx process not found. Make sure League of Legends client is running.".to_owned(),
            ),
        },
    }
}

} // verus!
