//! The command line of a node: which options exist, which take a value, and
//! which combinations are accepted.
//!
//! Options are read left to right after the program name. A long option is
//! `--name` or `--name=value`; a short one is `-x`, and short flags may be
//! grouped (`-vs`). An option that takes a value takes the rest of its token
//! (`-cfile`, `-c=file`, `--config=file`) or else the next token, unless that
//! token starts with `-` (other than `-` itself). `--` ends the options; any
//! token after it, and any token that is not an option, is refused. Each
//! option may be given once. `--help` and `--version` stop the reading. At the
//! end exactly one of `--config` and `--cache` must have been given.
use vstd::prelude::*;
use vstd::string::StrSliceExecFns;

verus! {

/// Options of a node's command line.
#[derive(Debug, Clone, PartialEq, Eq)]
pub struct Arguments {
    /// Config file with the node's configuration, in YAML.
    pub config: Option<String>,
    /// Cached node file, used to relaunch a stopped node.
    pub cache: Option<String>,
    /// Log the ongoing communication.
    pub verbose: bool,
    /// Run without a beacon node.
    pub skip_join: bool,
    /// Port to run the node on; overrides the config file.
    pub port: Option<u16>,
    /// Derive the storage directory from the node's key; overrides the config file.
    pub automatic_storage: bool,
}

/// Why a command line was refused, or why reading it stopped early.
#[derive(Debug, Clone, Copy, PartialEq, Eq)]
pub enum ArgsError {
    /// An option that does not exist.
    UnknownArgument,
    /// A token that is not an option.
    UnexpectedArgument,
    /// An option that takes a value was given none.
    MissingValue,
    /// A flag was given a value.
    UnexpectedValue,
    /// The port is not a number from 0 to 65535.
    InvalidValue,
    /// An option was given twice.
    ArgumentUsedTwice,
    /// Both `--config` and `--cache` were given.
    ArgumentConflict,
    /// Neither `--config` nor `--cache` was given.
    MissingRequiredArgument,
    /// `--help` was asked for.
    DisplayHelp,
    /// `--version` was asked for.
    DisplayVersion,
}

/// The options.
#[derive(Debug, Clone, Copy, PartialEq, Eq, Structural)]
pub enum OptionName {
    Config,
    Cache,
    Verbose,
    SkipJoin,
    Port,
    AutomaticStorage,
    Help,
    Version,
}

/// The options read so far.
pub struct ArgsModel {
    pub config: Option<Seq<char>>,
    pub cache: Option<Seq<char>>,
    pub verbose: bool,
    pub skip_join: bool,
    pub port: Option<u16>,
    pub automatic_storage: bool,
}

/// Nothing read yet.
pub open spec fn empty_model() -> ArgsModel {
    ArgsModel { config: None, cache: None, verbose: false, skip_join: false, port: None, automatic_storage: false }
}

/// The option a long name denotes.
pub open spec fn long_option(name: Seq<char>) -> Option<OptionName> {
    if name == "config"@ {
        Some(OptionName::Config)
    } else if name == "cache"@ {
        Some(OptionName::Cache)
    } else if name == "verbose"@ {
        Some(OptionName::Verbose)
    } else if name == "skip-join"@ {
        Some(OptionName::SkipJoin)
    } else if name == "port"@ {
        Some(OptionName::Port)
    } else if name == "automatic-storage"@ {
        Some(OptionName::AutomaticStorage)
    } else if name == "help"@ {
        Some(OptionName::Help)
    } else if name == "version"@ {
        Some(OptionName::Version)
    } else {
        None
    }
}

/// The option a short name denotes.
pub open spec fn short_option(c: char) -> Option<OptionName> {
    if c == 'c' {
        Some(OptionName::Config)
    } else if c == 'v' {
        Some(OptionName::Verbose)
    } else if c == 's' {
        Some(OptionName::SkipJoin)
    } else if c == 'p' {
        Some(OptionName::Port)
    } else if c == 'a' {
        Some(OptionName::AutomaticStorage)
    } else if c == 'h' {
        Some(OptionName::Help)
    } else if c == 'V' {
        Some(OptionName::Version)
    } else {
        None
    }
}

/// The option takes a value.
pub open spec fn takes_value(o: OptionName) -> bool {
    o == OptionName::Config || o == OptionName::Cache || o == OptionName::Port
}

/// The digits of a port, as a number: an optional `+` and at least one decimal
/// digit.
pub open spec fn digits_value(s: Seq<char>) -> int
    decreases s.len(),
{
    if s.len() == 0 {
        0
    } else {
        10 * digits_value(s.drop_last()) + (s.last() as int - '0' as int)
    }
}

/// All characters of `s` are decimal digits.
pub open spec fn all_digits(s: Seq<char>) -> bool {
    forall|i: int| 0 <= i < s.len() ==> '0' <= #[trigger] s[i] <= '9'
}

/// The port a value denotes, if it denotes one.
pub open spec fn port_value(v: Seq<char>) -> Option<u16> {
    let d = if v.len() > 0 && v[0] == '+' { v.drop_first() } else { v };
    if d.len() > 0 && all_digits(d) && digits_value(d) <= 65535 {
        Some(digits_value(d) as u16)
    } else {
        None
    }
}

/// The option was given already.
pub open spec fn already_set(m: ArgsModel, o: OptionName) -> bool {
    match o {
        OptionName::Config => m.config is Some,
        OptionName::Cache => m.cache is Some,
        OptionName::Verbose => m.verbose,
        OptionName::SkipJoin => m.skip_join,
        OptionName::Port => m.port is Some,
        OptionName::AutomaticStorage => m.automatic_storage,
        _ => false,
    }
}

/// Records the option `o` with value `v` (ignored for flags).
pub open spec fn set_option(m: ArgsModel, o: OptionName, v: Seq<char>) -> Result<ArgsModel, ArgsError> {
    if o == OptionName::Help {
        Err(ArgsError::DisplayHelp)
    } else if o == OptionName::Version {
        Err(ArgsError::DisplayVersion)
    } else if already_set(m, o) {
        Err(ArgsError::ArgumentUsedTwice)
    } else {
        match o {
            OptionName::Config => Ok(ArgsModel { config: Some(v), ..m }),
            OptionName::Cache => Ok(ArgsModel { cache: Some(v), ..m }),
            OptionName::Verbose => Ok(ArgsModel { verbose: true, ..m }),
            OptionName::SkipJoin => Ok(ArgsModel { skip_join: true, ..m }),
            OptionName::AutomaticStorage => Ok(ArgsModel { automatic_storage: true, ..m }),
            _ => match port_value(v) {
                Some(p) => Ok(ArgsModel { port: Some(p), ..m }),
                None => Err(ArgsError::InvalidValue),
            },
        }
    }
}

/// The token may serve as the value of the option before it.
pub open spec fn is_value_token(t: Seq<char>) -> bool {
    t.len() == 0 || t[0] != '-' || t == "-"@
}

/// Reads a value option whose value is the next token, at `i + 1`; gives the
/// state and the index of the token after it.
pub open spec fn take_next_value(ts: Seq<Seq<char>>, i: int, m: ArgsModel, o: OptionName) -> Result<(ArgsModel, int), ArgsError> {
    if i + 1 < ts.len() && is_value_token(ts[i + 1]) {
        match set_option(m, o, ts[i + 1]) {
            Ok(m1) => Ok((m1, i + 2)),
            Err(e) => Err(e),
        }
    } else if o == OptionName::Help || o == OptionName::Version {
        match set_option(m, o, Seq::empty()) {
            Ok(m1) => Ok((m1, i + 1)),
            Err(e) => Err(e),
        }
    } else {
        Err(ArgsError::MissingValue)
    }
}

/// The position of the first `=` in `s`, or its length.
pub open spec fn eq_position(s: Seq<char>) -> int
    decreases s.len(),
{
    if s.len() == 0 {
        0
    } else if s[0] == '=' {
        0
    } else {
        1 + eq_position(s.drop_first())
    }
}

/// Reads the long option in token `i` (its text after `--` is `body`).
pub open spec fn read_long(ts: Seq<Seq<char>>, i: int, body: Seq<char>, m: ArgsModel) -> Result<(ArgsModel, int), ArgsError> {
    let p = eq_position(body);
    let name = body.take(p);
    match long_option(name) {
        None => Err(ArgsError::UnknownArgument),
        Some(o) => if p < body.len() {
            if takes_value(o) {
                match set_option(m, o, body.skip(p + 1)) {
                    Ok(m1) => Ok((m1, i + 1)),
                    Err(e) => Err(e),
                }
            } else {
                Err(ArgsError::UnexpectedValue)
            }
        } else if takes_value(o) {
            take_next_value(ts, i, m, o)
        } else {
            match set_option(m, o, Seq::empty()) {
                Ok(m1) => Ok((m1, i + 1)),
                Err(e) => Err(e),
            }
        },
    }
}

/// Reads the short options `cs[j..]` of token `i`.
pub open spec fn read_shorts(ts: Seq<Seq<char>>, i: int, cs: Seq<char>, j: int, m: ArgsModel) -> Result<(ArgsModel, int), ArgsError>
    decreases cs.len() - j,
{
    if j >= cs.len() {
        Ok((m, i + 1))
    } else {
        match short_option(cs[j]) {
            None => Err(ArgsError::UnknownArgument),
            Some(o) => if takes_value(o) {
                if j + 1 < cs.len() {
                    let rest = cs.skip(j + 1);
                    let v = if rest[0] == '=' { rest.drop_first() } else { rest };
                    match set_option(m, o, v) {
                        Ok(m1) => Ok((m1, i + 1)),
                        Err(e) => Err(e),
                    }
                } else {
                    take_next_value(ts, i, m, o)
                }
            } else {
                match set_option(m, o, Seq::empty()) {
                    Ok(m1) => read_shorts(ts, i, cs, j + 1, m1),
                    Err(e) => Err(e),
                }
            },
        }
    }
}

/// Reads the token at `i`; gives the state and the index of the next token to read.
pub open spec fn read_token(ts: Seq<Seq<char>>, i: int, m: ArgsModel) -> Result<(ArgsModel, int), ArgsError> {
    let t = ts[i];
    if t == "--"@ {
        if i + 1 < ts.len() {
            Err(ArgsError::UnexpectedArgument)
        } else {
            Ok((m, i + 1))
        }
    } else if t.len() >= 2 && t[0] == '-' && t[1] == '-' {
        read_long(ts, i, t.skip(2), m)
    } else if t.len() >= 2 && t[0] == '-' {
        read_shorts(ts, i, t.drop_first(), 0, m)
    } else {
        Err(ArgsError::UnexpectedArgument)
    }
}

/// Reading short options moves on by one or two tokens.
pub proof fn lemma_read_shorts_advances(ts: Seq<Seq<char>>, i: int, cs: Seq<char>, j: int, m: ArgsModel)
    requires
        0 <= i < ts.len(),
    ensures
        read_shorts(ts, i, cs, j, m) matches Ok((m1, k)) ==> i < k <= i + 2 && k <= ts.len(),
    decreases cs.len() - j,
{
    if j < cs.len() {
        match short_option(cs[j]) {
            Some(o) => if !takes_value(o) {
                match set_option(m, o, Seq::empty()) {
                    Ok(m1) => lemma_read_shorts_advances(ts, i, cs, j + 1, m1),
                    Err(_) => {},
                }
            },
            None => {},
        }
    }
}

/// Reading a token moves on by one or two tokens.
pub proof fn lemma_read_token_advances(ts: Seq<Seq<char>>, i: int, m: ArgsModel)
    ensures
        0 <= i < ts.len() ==> (read_token(ts, i, m) matches Ok((m1, k)) ==> i < k <= i + 2 && k <= ts.len()),
{
    if 0 <= i < ts.len() {
        lemma_read_shorts_advances(ts, i, ts[i].drop_first(), 0, m);
    }
}

/// Reads the tokens from `i` on.
pub open spec fn read_tokens(ts: Seq<Seq<char>>, i: int, m: ArgsModel) -> Result<ArgsModel, ArgsError>
    decreases ts.len() - i,
{
    if i < 0 || i >= ts.len() {
        Ok(m)
    } else {
        match read_token(ts, i, m) {
            Ok((m1, k)) => {
                proof {
                    lemma_read_token_advances(ts, i, m);
                }
                read_tokens(ts, k, m1)
            },
            Err(e) => Err(e),
        }
    }
}

/// What a command line (program name first) gives.
pub open spec fn parse_args(ts: Seq<Seq<char>>) -> Result<ArgsModel, ArgsError> {
    match read_tokens(ts, 1, empty_model()) {
        Ok(m) => if m.config is Some && m.cache is Some {
            Err(ArgsError::ArgumentConflict)
        } else if m.config is None && m.cache is None {
            Err(ArgsError::MissingRequiredArgument)
        } else {
            Ok(m)
        },
        Err(e) => Err(e),
    }
}

/// The texts of the given strings.
pub open spec fn texts(v: Seq<String>) -> Seq<Seq<char>> {
    v.map_values(|s: String| s@)
}

/// The text of an optional string.
pub open spec fn opt_text(s: Option<String>) -> Option<Seq<char>> {
    match s {
        Some(x) => Some(x@),
        None => None,
    }
}


/// Whether two strings have the same characters.
pub(crate) fn str_eq(a: &str, b: &str) -> (r: bool)
    ensures
        r == (a@ == b@),
{
    let n: usize = a.unicode_len();
    if n != b.unicode_len() {
        return false;
    }
    for i in 0..n
        invariant
            n == a@.len(),
            n == b@.len(),
            forall|j: int| 0 <= j < i ==> a@[j] == b@[j],
    {
        if a.get_char(i) != b.get_char(i) {
            return false;
        }
    }
    assert(a@ =~= b@);
    true
}

/// The option a long name denotes.
fn long_option_exec(name: &str) -> (r: Option<OptionName>)
    ensures
        r == long_option(name@),
{
    if str_eq(name, "config") {
        Some(OptionName::Config)
    } else if str_eq(name, "cache") {
        Some(OptionName::Cache)
    } else if str_eq(name, "verbose") {
        Some(OptionName::Verbose)
    } else if str_eq(name, "skip-join") {
        Some(OptionName::SkipJoin)
    } else if str_eq(name, "port") {
        Some(OptionName::Port)
    } else if str_eq(name, "automatic-storage") {
        Some(OptionName::AutomaticStorage)
    } else if str_eq(name, "help") {
        Some(OptionName::Help)
    } else if str_eq(name, "version") {
        Some(OptionName::Version)
    } else {
        None
    }
}

/// The option a short name denotes.
fn short_option_exec(c: char) -> (r: Option<OptionName>)
    ensures
        r == short_option(c),
{
    if c == 'c' {
        Some(OptionName::Config)
    } else if c == 'v' {
        Some(OptionName::Verbose)
    } else if c == 's' {
        Some(OptionName::SkipJoin)
    } else if c == 'p' {
        Some(OptionName::Port)
    } else if c == 'a' {
        Some(OptionName::AutomaticStorage)
    } else if c == 'h' {
        Some(OptionName::Help)
    } else if c == 'V' {
        Some(OptionName::Version)
    } else {
        None
    }
}

proof fn lemma_digits_prefix(s: Seq<char>, j: int)
    requires
        all_digits(s),
        0 <= j <= s.len(),
    ensures
        digits_value(s.take(j)) <= digits_value(s),
        digits_value(s.take(j)) >= 0,
    decreases s.len() - j,
{
    lemma_digits_nonneg(s.take(j));
    if j < s.len() {
        lemma_digits_prefix(s, j + 1);
        let t = s.take(j + 1);
        assert(t.drop_last() =~= s.take(j));
        assert(all_digits(t));
        lemma_digits_nonneg(s.take(j));
    }
    assert(s.take(s.len() as int) =~= s);
}

proof fn lemma_digits_nonneg(s: Seq<char>)
    requires
        all_digits(s),
    ensures
        digits_value(s) >= 0,
    decreases s.len(),
{
    if s.len() > 0 {
        assert(all_digits(s.drop_last()));
        lemma_digits_nonneg(s.drop_last());
    }
}

/// The port a value denotes, if it denotes one.
fn parse_port(v: &str) -> (r: Option<u16>)
    ensures
        r == port_value(v@),
{
    let n: usize = v.unicode_len();
    let start: usize = if n > 0 && v.get_char(0) == '+' { 1 } else { 0 };
    let ghost d = v@.skip(start as int);
    assert(d =~= (if v@.len() > 0 && v@[0] == '+' { v@.drop_first() } else { v@ }));
    if start >= n {
        assert(d.len() == 0);
        return None;
    }
    let mut value: u32 = 0;
    let mut j: usize = start;
    while j < n
        invariant
            start <= j <= n,
            n == v@.len(),
            d == v@.skip(start as int),
            d == (if v@.len() > 0 && v@[0] == '+' { v@.drop_first() } else { v@ }),
            all_digits(d.take(j - start)),
            value == digits_value(d.take(j - start)),
            value <= 65535,
        decreases n - j,
    {
        let c = v.get_char(j);
        if c < '0' || c > '9' {
            proof {
                assert(d[j - start] == c);
                assert(!all_digits(d));
            }
            return None;
        }
        let digit: u32 = (c as u32) - ('0' as u32);
        let next: u32 = value * 10 + digit;
        proof {
            let t = d.take(j - start + 1);
            assert(t.drop_last() =~= d.take(j - start));
            assert(t.last() == c);
            assert(all_digits(t));
        }
        if next > 65535 {
            proof {
                if all_digits(d) {
                    lemma_digits_prefix(d, j - start + 1);
                }
            }
            return None;
        }
        value = next;
        j += 1;
    }
    assert(d.take(n - start) =~= d);
    Some(value as u16)
}

/// Records the option `o` with value `v` (ignored for flags).
fn set_option_exec(a: &mut Arguments, o: OptionName, v: &str) -> (r: Result<(), ArgsError>)
    ensures
        match set_option(old(a).model(), o, v@) {
            Ok(m1) => r is Ok && final(a).model() == m1,
            Err(e) => r == Err::<(), ArgsError>(e),
        },
{
    match o {
        OptionName::Help => Err(ArgsError::DisplayHelp),
        OptionName::Version => Err(ArgsError::DisplayVersion),
        OptionName::Config => {
            if a.config.is_some() {
                return Err(ArgsError::ArgumentUsedTwice);
            }
            a.config = Some(v.to_owned());
            Ok(())
        },
        OptionName::Cache => {
            if a.cache.is_some() {
                return Err(ArgsError::ArgumentUsedTwice);
            }
            a.cache = Some(v.to_owned());
            Ok(())
        },
        OptionName::Verbose => {
            if a.verbose {
                return Err(ArgsError::ArgumentUsedTwice);
            }
            a.verbose = true;
            Ok(())
        },
        OptionName::SkipJoin => {
            if a.skip_join {
                return Err(ArgsError::ArgumentUsedTwice);
            }
            a.skip_join = true;
            Ok(())
        },
        OptionName::AutomaticStorage => {
            if a.automatic_storage {
                return Err(ArgsError::ArgumentUsedTwice);
            }
            a.automatic_storage = true;
            Ok(())
        },
        OptionName::Port => {
            if a.port.is_some() {
                return Err(ArgsError::ArgumentUsedTwice);
            }
            match parse_port(v) {
                Some(p) => {
                    a.port = Some(p);
                    Ok(())
                },
                None => Err(ArgsError::InvalidValue),
            }
        },
    }
}

/// Whether the token may serve as the value of the option before it.
fn is_value_token_exec(t: &str) -> (b: bool)
    ensures
        b == is_value_token(t@),
{
    let n: usize = t.unicode_len();
    n == 0 || t.get_char(0) != '-' || str_eq(t, "-")
}

/// Carries out `take_next_value`.
fn take_next_value_exec(args: &Vec<String>, i: usize, a: &mut Arguments, o: OptionName) -> (r: Result<usize, ArgsError>)
    requires
        i < args@.len(),
    ensures
        match take_next_value(texts(args@), i as int, old(a).model(), o) {
            Ok((m1, k)) => r == Ok::<usize, ArgsError>(k as usize) && final(a).model() == m1,
            Err(e) => r == Err::<usize, ArgsError>(e),
        },
{
    let len: usize = args.len();
    let ghost ts = texts(args@);
    if i + 1 < args.len() && is_value_token_exec(args[i + 1].as_str()) {
        assert(ts[i + 1] == args@[i + 1]@);
        match set_option_exec(a, o, args[i + 1].as_str()) {
            Ok(()) => Ok(i + 2),
            Err(e) => Err(e),
        }
    } else if o == OptionName::Help || o == OptionName::Version {
        proof {
            assert(""@ =~= Seq::<char>::empty()) by {
                reveal_strlit("");
            }
        }
        match set_option_exec(a, o, "") {
            Ok(()) => Ok(i + 1),
            Err(e) => Err(e),
        }
    } else {
        Err(ArgsError::MissingValue)
    }
}

proof fn lemma_eq_position(s: Seq<char>, p: int)
    requires
        0 <= p <= s.len(),
        forall|k: int| 0 <= k < p ==> s[k] != '=',
        p < s.len() ==> s[p] == '=',
    ensures
        eq_position(s) == p,
    decreases s.len(),
{
    if s.len() > 0 && p > 0 {
        lemma_eq_position(s.drop_first(), p - 1);
    }
}

/// Carries out `read_long` for token `i`.
fn read_long_exec(args: &Vec<String>, i: usize, a: &mut Arguments) -> (r: Result<usize, ArgsError>)
    requires
        i < args@.len(),
        args@[i as int]@.len() >= 2,
    ensures
        match read_long(texts(args@), i as int, args@[i as int]@.skip(2), old(a).model()) {
            Ok((m1, k)) => r == Ok::<usize, ArgsError>(k as usize) && final(a).model() == m1,
            Err(e) => r == Err::<usize, ArgsError>(e),
        },
{
    let len: usize = args.len();
    let t = args[i].as_str();
    let n: usize = t.unicode_len();
    let ghost body = t@.skip(2);
    let mut p: usize = 2;
    while p < n && t.get_char(p) != '='
        invariant
            2 <= p <= n,
            n == t@.len(),
            body == t@.skip(2),
            forall|k: int| 2 <= k < p ==> t@[k] != '=',
        decreases n - p,
    {
        p += 1;
    }
    proof {
        lemma_eq_position(body, p - 2);
    }
    let name = t.substring_char(2, p);
    assert(name@ =~= body.take(p - 2));
    match long_option_exec(name) {
        None => Err(ArgsError::UnknownArgument),
        Some(o) => {
            if p < n {
                if o == OptionName::Config || o == OptionName::Cache || o == OptionName::Port {
                    let value = t.substring_char(p + 1, n);
                    assert(value@ =~= body.skip(p - 2 + 1));
                    match set_option_exec(a, o, value) {
                        Ok(()) => Ok(i + 1),
                        Err(e) => Err(e),
                    }
                } else {
                    Err(ArgsError::UnexpectedValue)
                }
            } else if o == OptionName::Config || o == OptionName::Cache || o == OptionName::Port {
                take_next_value_exec(args, i, a, o)
            } else {
                proof {
                    assert(""@ =~= Seq::<char>::empty()) by {
                        reveal_strlit("");
                    }
                }
                match set_option_exec(a, o, "") {
                    Ok(()) => Ok(i + 1),
                    Err(e) => Err(e),
                }
            }
        },
    }
}

/// Carries out `read_shorts` for token `i`.
fn read_shorts_exec(args: &Vec<String>, i: usize, a: &mut Arguments) -> (r: Result<usize, ArgsError>)
    requires
        i < args@.len(),
        args@[i as int]@.len() >= 1,
    ensures
        match read_shorts(texts(args@), i as int, args@[i as int]@.drop_first(), 0, old(a).model()) {
            Ok((m1, k)) => r == Ok::<usize, ArgsError>(k as usize) && final(a).model() == m1,
            Err(e) => r == Err::<usize, ArgsError>(e),
        },
{
    let len: usize = args.len();
    let ghost ts = texts(args@);
    let t = args[i].as_str();
    let ghost cs = t@.drop_first();
    let n: usize = t.unicode_len();
    let mut j: usize = 1;
    while j < n
        invariant
            1 <= j <= n,
            n == t@.len(),
            i < args@.len(),
            len == args@.len(),
            t@ == args@[i as int]@,
            ts == texts(args@),
            cs == t@.drop_first(),
            read_shorts(ts, i as int, cs, 0, old(a).model()) == read_shorts(ts, i as int, cs, j - 1, a.model()),
        decreases n - j,
    {
        let c = t.get_char(j);
        assert(cs[j - 1] == c);
        match short_option_exec(c) {
            None => {
                return Err(ArgsError::UnknownArgument);
            },
            Some(o) => {
                if o == OptionName::Config || o == OptionName::Cache || o == OptionName::Port {
                    if j + 1 < n {
                        let start: usize = if t.get_char(j + 1) == '=' { j + 2 } else { j + 1 };
                        let value = t.substring_char(start, n);
                        proof {
                            let rest = cs.skip(j as int);
                            assert(rest[0] == t@[j + 1]);
                            assert(value@ =~= (if rest[0] == '=' { rest.drop_first() } else { rest }));
                        }
                        return match set_option_exec(a, o, value) {
                            Ok(()) => Ok(i + 1),
                            Err(e) => Err(e),
                        };
                    } else {
                        return take_next_value_exec(args, i, a, o);
                    }
                } else {
                    proof {
                        assert(""@ =~= Seq::<char>::empty()) by {
                            reveal_strlit("");
                        }
                    }
                    match set_option_exec(a, o, "") {
                        Ok(()) => {},
                        Err(e) => {
                            return Err(e);
                        },
                    }
                }
            },
        }
        j += 1;
    }
    Ok(i + 1)
}

/// Carries out `read_token` for token `i`.
fn read_token_exec(args: &Vec<String>, i: usize, a: &mut Arguments) -> (r: Result<usize, ArgsError>)
    requires
        i < args@.len(),
    ensures
        match read_token(texts(args@), i as int, old(a).model()) {
            Ok((m1, k)) => r == Ok::<usize, ArgsError>(k as usize) && final(a).model() == m1,
            Err(e) => r == Err::<usize, ArgsError>(e),
        },
{
    let len: usize = args.len();
    let ghost ts = texts(args@);
    let t = args[i].as_str();
    assert(ts[i as int] == t@);
    let n: usize = t.unicode_len();
    if str_eq(t, "--") {
        if i + 1 < args.len() {
            return Err(ArgsError::UnexpectedArgument);
        }
        return Ok(i + 1);
    }
    if n >= 2 && t.get_char(0) == '-' && t.get_char(1) == '-' {
        read_long_exec(args, i, a)
    } else if n >= 2 && t.get_char(0) == '-' {
        read_shorts_exec(args, i, a)
    } else {
        Err(ArgsError::UnexpectedArgument)
    }
}

impl Arguments {
    /// The options, as values.
    pub open spec fn model(&self) -> ArgsModel {
        ArgsModel {
            config: opt_text(self.config),
            cache: opt_text(self.cache),
            verbose: self.verbose,
            skip_join: self.skip_join,
            port: self.port,
            automatic_storage: self.automatic_storage,
        }
    }

    /// Reads a command line whose first token is the program name.
    pub fn try_parse_from(args: Vec<String>) -> (r: Result<Arguments, ArgsError>)
        ensures
            match parse_args(texts(args@)) {
                Ok(m) => r matches Ok(a) && a.model() == m,
                Err(e) => r == Err::<Arguments, ArgsError>(e),
            },
    {
        let ghost ts = texts(args@);
        let mut a = Arguments {
            config: None,
            cache: None,
            verbose: false,
            skip_join: false,
            port: None,
            automatic_storage: false,
        };
        let n: usize = args.len();
        let mut i: usize = 1;
        assert(a.model() == empty_model());
        while i < n
            invariant
                n == args@.len(),
                ts == texts(args@),
                1 <= i,
                read_tokens(ts, 1, empty_model()) == read_tokens(ts, i as int, a.model()),
            decreases n - i,
        {
            let ghost m0 = a.model();
            proof {
                lemma_read_token_advances(ts, i as int, m0);
            }
            match read_token_exec(&args, i, &mut a) {
                Ok(k) => {
                    i = k;
                },
                Err(e) => {
                    return Err(e);
                },
            }
        }
        if a.config.is_some() && a.cache.is_some() {
            return Err(ArgsError::ArgumentConflict);
        }
        if a.config.is_none() && a.cache.is_none() {
            return Err(ArgsError::MissingRequiredArgument);
        }
        Ok(a)
    }

    /// Reads a command line that is known to be accepted (a refused one ends
    /// the program, with the help, version or error text, in the caller).
    pub fn parse_from(args: Vec<String>) -> (a: Arguments)
        requires
            parse_args(texts(args@)) is Ok,
        ensures
            parse_args(texts(args@)) == Ok::<ArgsModel, ArgsError>(a.model()),
    {
        match Arguments::try_parse_from(args) {
            Ok(a) => a,
            Err(_) => Arguments {
                config: None,
                cache: None,
                verbose: false,
                skip_join: false,
                port: None,
                automatic_storage: false,
            },
        }
    }
}

/// The long and the short form of an option name the same option, and
/// different options have different names: `--config`/`-c`,
/// `--verbose`/`-v`, `--skip-join`/`-s`, `--port`/`-p`,
/// `--automatic-storage`/`-a`, `--help`/`-h`, `--version`/`-V`; `--cache` has
/// no short form.
pub proof fn law_long_and_short_forms_agree()
    ensures
        long_option("config"@) == short_option('c') && short_option('c') == Some(OptionName::Config),
        long_option("verbose"@) == short_option('v') && short_option('v') == Some(OptionName::Verbose),
        long_option("skip-join"@) == short_option('s') && short_option('s') == Some(OptionName::SkipJoin),
        long_option("port"@) == short_option('p') && short_option('p') == Some(OptionName::Port),
        long_option("automatic-storage"@) == short_option('a') && short_option('a') == Some(OptionName::AutomaticStorage),
        long_option("help"@) == short_option('h') && short_option('h') == Some(OptionName::Help),
        long_option("version"@) == short_option('V') && short_option('V') == Some(OptionName::Version),
        long_option("cache"@) == Some(OptionName::Cache),
{
    reveal_strlit("config");
    reveal_strlit("cache");
    reveal_strlit("verbose");
    reveal_strlit("skip-join");
    reveal_strlit("port");
    reveal_strlit("automatic-storage");
    reveal_strlit("help");
    reveal_strlit("version");
    let names = seq!["config"@, "cache"@, "verbose"@, "skip-join"@, "port"@, "automatic-storage"@, "help"@, "version"@];
    assert forall|i: int, j: int| 0 <= i < j < 8 implies names[i] != names[j] by {
        if names[i].len() == names[j].len() {
            assert(names[i][0] != names[j][0] || names[i][3] != names[j][3]);
        }
    }
}

/// `--config <file>` at `i` sets the config file and moves on by two tokens.
proof fn lemma_read_config(ts: Seq<Seq<char>>, i: int, file: Seq<char>, m: ArgsModel)
    requires
        0 <= i,
        i + 1 < ts.len(),
        ts[i] == "--config"@,
        ts[i + 1] == file,
        is_value_token(file),
        m.config is None,
    ensures
        read_token(ts, i, m) == Ok::<(ArgsModel, int), ArgsError>((ArgsModel { config: Some(file), ..m }, i + 2)),
{
    reveal_strlit("--config");
    reveal_strlit("--");
    reveal_strlit("config");
    reveal_with_fuel(eq_position, 7);
    assert("--config"@ != "--"@);
    assert("--config"@.skip(2) =~= "config"@);
    assert(eq_position("config"@) == 6);
    assert("config"@.take(6) =~= "config"@);
}

/// `--skip-join` or `-s` at `i` skips the join and moves on by one token.
proof fn lemma_read_skip_join(ts: Seq<Seq<char>>, i: int, short_flag: bool, m: ArgsModel)
    requires
        0 <= i < ts.len(),
        ts[i] == (if short_flag { "-s"@ } else { "--skip-join"@ }),
        !m.skip_join,
    ensures
        read_token(ts, i, m) == Ok::<(ArgsModel, int), ArgsError>((ArgsModel { skip_join: true, ..m }, i + 1)),
{
    reveal_strlit("-s");
    reveal_strlit("--skip-join");
    reveal_strlit("--");
    reveal_strlit("skip-join");
    if short_flag {
        assert("-s"@ != "--"@);
        assert("-s"@.drop_first() =~= seq!['s']);
        let m1 = ArgsModel { skip_join: true, ..m };
        assert(read_shorts(ts, i, seq!['s'], 1, m1) == Ok::<(ArgsModel, int), ArgsError>((m1, i + 1)));
    } else {
        reveal_with_fuel(eq_position, 10);
        assert("--skip-join"@ != "--"@);
        assert("--skip-join"@.skip(2) =~= "skip-join"@);
        assert(eq_position("skip-join"@) == 9);
        assert("skip-join"@.take(9) =~= "skip-join"@);
        law_long_and_short_forms_agree();
    }
}

/// Starting a beacon node as the README does, `<program> --config <file>
/// --skip-join` (or with `-s`, in either order), gives the config file, skips
/// the join, and sets nothing else: no cache, not verbose, no port, no
/// automatic storage.
pub proof fn law_beacon_command_line(prog: Seq<char>, file: Seq<char>, short_flag: bool, flag_first: bool)
    requires
        is_value_token(file),
    ensures
        ({
            let flag = if short_flag { "-s"@ } else { "--skip-join"@ };
            let ts = if flag_first {
                seq![prog, flag, "--config"@, file]
            } else {
                seq![prog, "--config"@, file, flag]
            };
            parse_args(ts) == Ok::<ArgsModel, ArgsError>(
                ArgsModel {
                    config: Some(file),
                    cache: None,
                    verbose: false,
                    skip_join: true,
                    port: None,
                    automatic_storage: false,
                },
            )
        }),
{
    let flag = if short_flag { "-s"@ } else { "--skip-join"@ };
    let ts = if flag_first {
        seq![prog, flag, "--config"@, file]
    } else {
        seq![prog, "--config"@, file, flag]
    };
    let m0 = empty_model();
    let with_config = ArgsModel { config: Some(file), ..m0 };
    let with_flag = ArgsModel { skip_join: true, ..m0 };
    let both = ArgsModel { config: Some(file), skip_join: true, ..m0 };
    if flag_first {
        lemma_read_skip_join(ts, 1, short_flag, m0);
        lemma_read_config(ts, 2, file, with_flag);
        assert(ArgsModel { config: Some(file), ..with_flag } == both);
        assert(read_tokens(ts, 4, both) == Ok::<ArgsModel, ArgsError>(both));
        assert(read_tokens(ts, 2, with_flag) == Ok::<ArgsModel, ArgsError>(both));
    } else {
        lemma_read_config(ts, 1, file, m0);
        lemma_read_skip_join(ts, 3, short_flag, with_config);
        assert(ArgsModel { skip_join: true, ..with_config } == both);
        assert(read_tokens(ts, 4, both) == Ok::<ArgsModel, ArgsError>(both));
        assert(read_tokens(ts, 3, with_config) == Ok::<ArgsModel, ArgsError>(both));
    }
}

} // verus!
