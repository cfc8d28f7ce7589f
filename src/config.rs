//! Settings read from `key = value` lines, and what can go wrong reading
//! them.

use vstd::prelude::*;
use vstd::string::*;
use crate::text::{chars_of, is_whitespace, is_ws, push_char, string_of};

verus! {

/// `s` without leading whitespace.
pub open spec fn trim_start(s: Seq<char>) -> Seq<char>
    decreases s.len(),
{
    if s.len() > 0 && is_ws(s[0]) {
        trim_start(s.drop_first())
    } else {
        s
    }
}

/// `s` without trailing whitespace.
pub open spec fn trim_end(s: Seq<char>) -> Seq<char>
    decreases s.len(),
{
    if s.len() > 0 && is_ws(s.last()) {
        trim_end(s.drop_last())
    } else {
        s
    }
}

/// `s` without leading or trailing whitespace.
pub open spec fn trim(s: Seq<char>) -> Seq<char> {
    trim_end(trim_start(s))
}

/// The pieces of `s` between line feeds.
pub open spec fn split_lines(s: Seq<char>) -> Seq<Seq<char>>
    decreases s.len(),
{
    if s.len() == 0 {
        seq![Seq::empty()]
    } else {
        let p = split_lines(s.drop_last());
        if s.last() == '\n' {
            p.push(Seq::empty())
        } else {
            p.update(p.len() - 1, p.last().push(s.last()))
        }
    }
}

/// The setting a line holds: none for a blank line, a `#` comment or a
/// `[section]` header; else the trimmed text before and after its first
/// `=`, if it has one.
pub open spec fn line_entry(line: Seq<char>) -> Option<(Seq<char>, Seq<char>)> {
    let t = trim(line);
    if t.len() == 0 || t[0] == '#' || (t[0] == '[' && t.last() == ']') {
        None
    } else {
        match t.index_of_first('=') {
            Some(e) => Some((trim(t.subrange(0, e)), trim(t.subrange(e + 1, t.len() as int)))),
            None => None,
        }
    }
}

/// The settings of `lines`, in order.
pub open spec fn config_pairs(lines: Seq<Seq<char>>) -> Seq<(Seq<char>, Seq<char>)>
    decreases lines.len(),
{
    if lines.len() == 0 {
        Seq::empty()
    } else {
        let prev = config_pairs(lines.drop_last());
        match line_entry(lines.last()) {
            Some(p) => prev.push(p),
            None => prev,
        }
    }
}

/// The settings of a config text, in order.
pub open spec fn parse_pairs(text: Seq<char>) -> Seq<(Seq<char>, Seq<char>)> {
    config_pairs(split_lines(text))
}

/// The value of `key`: that of its last setting, as a later line overrides
/// an earlier one.
pub open spec fn lookup(pairs: Seq<(Seq<char>, Seq<char>)>, key: Seq<char>) -> Option<Seq<char>>
    decreases pairs.len(),
{
    if pairs.len() == 0 {
        None
    } else if pairs.last().0 == key {
        Some(pairs.last().1)
    } else {
        lookup(pairs.drop_last(), key)
    }
}

proof fn lemma_split_lines_nonempty(s: Seq<char>)
    ensures
        split_lines(s).len() > 0,
    decreases s.len(),
{
    if s.len() > 0 {
        lemma_split_lines_nonempty(s.drop_last());
    }
}

/// Copies `s[lo..hi]`.
fn copy_range(s: &Vec<char>, lo: usize, hi: usize) -> (r: Vec<char>)
    requires
        lo <= hi <= s@.len(),
    ensures
        r@ == s@.subrange(lo as int, hi as int),
{
    let mut out: Vec<char> = Vec::new();
    let mut i: usize = lo;
    while i < hi
        invariant
            lo <= i <= hi,
            hi <= s@.len(),
            out@ == s@.subrange(lo as int, i as int),
        decreases hi - i,
    {
        out.push(s[i]);
        i = i + 1;
        assert(out@ =~= s@.subrange(lo as int, i as int));
    }
    out
}

/// `s[lo..hi]` without leading or trailing whitespace.
pub(crate) fn trim_range(s: &Vec<char>, lo: usize, hi: usize) -> (r: Vec<char>)
    requires
        lo <= hi <= s@.len(),
    ensures
        r@ == trim(s@.subrange(lo as int, hi as int)),
{
    let mut a: usize = lo;
    while a < hi && is_whitespace(s[a])
        invariant
            lo <= a <= hi,
            hi <= s@.len(),
            trim_start(s@.subrange(lo as int, hi as int)) == trim_start(
                s@.subrange(a as int, hi as int),
            ),
        decreases hi - a,
    {
        assert(s@.subrange(a as int, hi as int).drop_first() =~= s@.subrange(a + 1, hi as int));
        a = a + 1;
    }
    let mut b: usize = hi;
    while b > a && is_whitespace(s[b - 1])
        invariant
            a <= b <= hi,
            hi <= s@.len(),
            trim_end(s@.subrange(a as int, hi as int)) == trim_end(s@.subrange(a as int, b as int)),
        decreases b - a,
    {
        assert(s@.subrange(a as int, b as int).drop_last() =~= s@.subrange(a as int, b - 1));
        b = b - 1;
    }
    copy_range(s, a, b)
}

/// The setting that the line `s[lo..hi]` holds.
fn parse_line(s: &Vec<char>, lo: usize, hi: usize) -> (r: Option<(Vec<char>, Vec<char>)>)
    requires
        lo <= hi <= s@.len(),
    ensures
        match line_entry(s@.subrange(lo as int, hi as int)) {
            None => r is None,
            Some(p) => match r {
                Some(kv) => kv.0@ == p.0 && kv.1@ == p.1,
                None => false,
            },
        },
{
    let t = trim_range(s, lo, hi);
    let n = t.len();
    if n == 0 || t[0] == '#' || (t[0] == '[' && t[n - 1] == ']') {
        return None;
    }
    let mut e: usize = 0;
    while e < n && t[e] != '='
        invariant
            e <= n,
            n == t@.len(),
            forall|j: int| 0 <= j < e ==> t@[j] != '=',
        decreases n - e,
    {
        e = e + 1;
    }
    proof {
        t@.index_of_first_ensures('=');
    }
    if e == n {
        return None;
    }
    proof {
        let f = t@.index_of_first('=')->0;
        if f < e {
            assert(t@[f] != '=');
        }
        if f > e {
            assert(t@[e as int] == '=');
        }
    }
    let key = trim_range(&t, 0, e);
    let value = trim_range(&t, e + 1, n);
    Some((key, value))
}

/// The keys every config must set, in the order they are reported missing.
pub open spec fn required_keys() -> Seq<Seq<char>> {
    seq!["host_ip"@, "host_port"@, "msg_size"@, "prefix"@]
}

/// The keys of `keys` that `pairs` does not set, in order.
pub open spec fn missing_keys(keys: Seq<Seq<char>>, pairs: Seq<(Seq<char>, Seq<char>)>) -> Seq<
    Seq<char>,
>
    decreases keys.len(),
{
    if keys.len() == 0 {
        Seq::empty()
    } else {
        let prev = missing_keys(keys.drop_last(), pairs);
        if lookup(pairs, keys.last()) is None {
            prev.push(keys.last())
        } else {
            prev
        }
    }
}

/// The texts held by a sequence of strings.
pub open spec fn string_views(v: Seq<String>) -> Seq<Seq<char>> {
    v.map_values(|s: String| s@)
}

/// What can go wrong in finding and reading the settings.
pub enum ConfigError {
    /// No config file was given and none was found.
    NoConfigOrFlag,
    /// The config holds no setting.
    NoValidSettings,
    /// The config file could not be read; the reason.
    ConfigReadFailed(String),
    /// The config file is not in the expected format.
    ConfigParseFailed,
    /// The config names no host address.
    MissingHostIp,
    /// Required keys that the config does not set.
    MissingKeys(Vec<String>),
}

/// A key in double quotes.
pub open spec fn quoted(k: Seq<char>) -> Seq<char> {
    seq!['"'] + k + seq!['"']
}

/// Keys in double quotes, separated by a comma and a space.
pub open spec fn quoted_list(keys: Seq<Seq<char>>) -> Seq<char>
    decreases keys.len(),
{
    if keys.len() == 0 {
        Seq::empty()
    } else if keys.len() == 1 {
        quoted(keys[0])
    } else {
        quoted_list(keys.drop_last()) + seq![',', ' '] + quoted(keys.last())
    }
}

/// The text that describes an error to a person.
pub open spec fn error_text(e: ConfigError) -> Seq<char> {
    match e {
        ConfigError::NoConfigOrFlag => "No config file or flag provided."@,
        ConfigError::NoValidSettings => "No valid settings in provided config file. Review Template."@,
        ConfigError::ConfigReadFailed(reason) => "Config file read failed: "@ + reason@,
        ConfigError::ConfigParseFailed => "Failed to parse the config file, is it valid?"@,
        ConfigError::MissingHostIp => "Missing host IP in the config file."@,
        ConfigError::MissingKeys(keys) => "Missing keys: "@ + seq!['['] + quoted_list(
            string_views(keys@),
        ) + seq![']'],
    }
}

fn push_quoted(out: &mut String, k: &String)
    ensures
        final(out)@ == old(out)@ + quoted(k@),
{
    push_char(out, '"');
    out.append(k.as_str());
    push_char(out, '"');
}

impl ConfigError {
    /// The text that describes the error to a person.
    pub fn message(&self) -> (r: String)
        ensures
            r@ == error_text(*self),
    {
        match self {
            ConfigError::NoConfigOrFlag => String::from_str("No config file or flag provided."),
            ConfigError::NoValidSettings => String::from_str(
                "No valid settings in provided config file. Review Template.",
            ),
            ConfigError::ConfigReadFailed(reason) => String::from_str(
                "Config file read failed: ",
            ).concat(reason.as_str()),
            ConfigError::ConfigParseFailed => String::from_str(
                "Failed to parse the config file, is it valid?",
            ),
            ConfigError::MissingHostIp => String::from_str("Missing host IP in the config file."),
            ConfigError::MissingKeys(keys) => {
                let mut out = String::from_str("Missing keys: ");
                push_char(&mut out, '[');
                let ghost head = out@;
                let mut i: usize = 0;
                while i < keys.len()
                    invariant
                        i <= keys@.len(),
                        out@ == head + quoted_list(string_views(keys@).subrange(0, i as int)),
                    decreases keys@.len() - i,
                {
                    let ghost done = string_views(keys@).subrange(0, i as int);
                    let ghost more = string_views(keys@).subrange(0, i + 1);
                    assert(more.drop_last() =~= done);
                    if i > 0 {
                        push_char(&mut out, ',');
                        push_char(&mut out, ' ');
                    }
                    push_quoted(&mut out, &keys[i]);
                    i = i + 1;
                    proof {
                        if more.len() == 1 {
                            assert(out@ =~= head + quoted(more[0]));
                        } else {
                            assert(out@ =~= head + (quoted_list(done) + seq![',', ' '] + quoted(
                                more.last(),
                            )));
                        }
                    }
                }
                assert(string_views(keys@).subrange(0, keys@.len() as int) =~= string_views(
                    keys@,
                ));
                push_char(&mut out, ']');
                out
            },
        }
    }
}

/// The number that decimal digits spell.
pub open spec fn digits_value(ds: Seq<char>) -> int
    decreases ds.len(),
{
    if ds.len() == 0 {
        0
    } else {
        digits_value(ds.drop_last()) * 10 + (ds.last() as int - '0' as int)
    }
}

/// Every character is an ASCII digit.
pub open spec fn all_digits(ds: Seq<char>) -> bool {
    forall|i: int| 0 <= i < ds.len() ==> '0' <= #[trigger] ds[i] && ds[i] <= '9'
}

/// The digits of an unsigned number: the text after an optional `+`.
pub open spec fn unsigned_digits(s: Seq<char>) -> Seq<char> {
    if s.len() > 0 && s[0] == '+' {
        s.drop_first()
    } else {
        s
    }
}

/// `s` is an unsigned decimal number that fits in a `usize`.
pub open spec fn parses_as_usize(s: Seq<char>) -> bool {
    let ds = unsigned_digits(s);
    ds.len() > 0 && all_digits(ds) && digits_value(ds) <= usize::MAX
}

proof fn lemma_digits_grow(ds: Seq<char>, i: int)
    requires
        all_digits(ds),
        0 <= i <= ds.len(),
    ensures
        digits_value(ds.subrange(0, i)) <= digits_value(ds),
        0 <= digits_value(ds.subrange(0, i)),
    decreases ds.len() - i,
{
    if i < ds.len() {
        lemma_digits_grow(ds, i + 1);
        let pre = ds.subrange(0, i + 1);
        assert(pre.drop_last() =~= ds.subrange(0, i));
        assert('0' <= ds[i] && ds[i] <= '9');
        let v = digits_value(ds.subrange(0, i));
        assert(v <= v * 10 + (ds[i] as int - '0' as int)) by (nonlinear_arith)
            requires
                0 <= v,
                0 <= ds[i] as int - '0' as int,
        ;
    } else {
        assert(ds.subrange(0, i) =~= ds);
        lemma_digits_nonneg(ds);
    }
}

proof fn lemma_digits_nonneg(ds: Seq<char>)
    requires
        all_digits(ds),
    ensures
        0 <= digits_value(ds),
    decreases ds.len(),
{
    if ds.len() > 0 {
        let init = ds.drop_last();
        assert(all_digits(init)) by {
            assert forall|i: int| 0 <= i < init.len() implies '0' <= #[trigger] init[i] && init[i]
                <= '9' by {
                assert(init[i] == ds[i]);
            }
        }
        lemma_digits_nonneg(init);
        assert('0' <= ds[ds.len() - 1]);
        assert(0 <= digits_value(init) * 10) by (nonlinear_arith)
            requires
                0 <= digits_value(init),
        ;
    }
}

/// Reads an unsigned decimal number, as `usize`'s `from_str` does.
fn parse_usize(s: &String) -> (r: Option<usize>)
    ensures
        r is Some <==> parses_as_usize(s@),
        r is Some ==> r->0 == digits_value(unsigned_digits(s@)),
{
    let cs = chars_of(s.as_str());
    let start: usize = if cs.len() > 0 && cs[0] == '+' {
        1
    } else {
        0
    };
    let ghost ds = unsigned_digits(s@);
    assert(ds =~= cs@.subrange(start as int, cs@.len() as int));
    if start >= cs.len() {
        return None;
    }
    let mut value: usize = 0;
    let mut i: usize = start;
    while i < cs.len()
        invariant
            start <= i <= cs@.len(),
            ds == unsigned_digits(s@),
            ds == cs@.subrange(start as int, cs@.len() as int),
            all_digits(ds.subrange(0, i - start)),
            value == digits_value(ds.subrange(0, i - start)),
        decreases cs@.len() - i,
    {
        let c = cs[i];
        let ghost pre = ds.subrange(0, i - start + 1);
        assert(pre.drop_last() =~= ds.subrange(0, i - start));
        if c < '0' || c > '9' {
            assert(!all_digits(ds)) by {
                assert(ds[i - start] == c);
                assert(!('0' <= ds[i - start] && ds[i - start] <= '9'));
            }
            assert(!parses_as_usize(s@));
            return None;
        }
        let d = (c as u32 - '0' as u32) as usize;
        assert(all_digits(pre)) by {
            assert forall|j: int| 0 <= j < pre.len() implies '0' <= #[trigger] pre[j] && pre[j]
                <= '9' by {
                if j < pre.len() - 1 {
                    assert(pre[j] == ds.subrange(0, i - start)[j]);
                }
            }
        }
        if value > (usize::MAX - d) / 10 {
            proof {
                assert(pre.last() == c);
                assert(c as int - '0' as int == d as int);
                assert(digits_value(pre) == value * 10 + d);
                assert(value * 10 + d > usize::MAX) by (nonlinear_arith)
                    requires
                        value > (usize::MAX - d) / 10,
                        d <= 9,
                ;
                if all_digits(ds) {
                    lemma_digits_grow(ds, i - start + 1);
                }
                assert(!parses_as_usize(s@));
            }
            return None;
        }
        assert(value * 10 + d <= usize::MAX) by (nonlinear_arith)
            requires
                value <= (usize::MAX - d) / 10,
                d <= 9,
        ;
        value = value * 10 + d;
        i = i + 1;
    }
    assert(ds.subrange(0, ds.len() as int) =~= ds);
    Some(value)
}

/// Settings as `key = value` pairs, in the order the config gives them.
pub struct ConfigHandle {
    pub options: Vec<(String, String)>,
}

impl View for ConfigHandle {
    type V = Seq<(Seq<char>, Seq<char>)>;

    open spec fn view(&self) -> Seq<(Seq<char>, Seq<char>)> {
        self.options@.map_values(|p: (String, String)| (p.0@, p.1@))
    }
}

impl ConfigHandle {
    /// Reads the settings of a config text: one `key = value` per line,
    /// blank lines, `#` comments and `[section]` headers skipped. Fails
    /// when the text sets nothing, or leaves a required key unset.
    pub fn parse(text: &str) -> (r: Result<ConfigHandle, ConfigError>)
        ensures
            parse_pairs(text@).len() == 0 <==> r matches Err(ConfigError::NoValidSettings),
            parse_pairs(text@).len() > 0 && missing_keys(required_keys(), parse_pairs(text@)).len()
                > 0 <==> r matches Err(ConfigError::MissingKeys(_)),
            r matches Err(ConfigError::MissingKeys(keys)) ==> string_views(keys@) == missing_keys(
                required_keys(),
                parse_pairs(text@),
            ),
            r is Err ==> r matches Err(ConfigError::NoValidSettings) || r matches Err(
                ConfigError::MissingKeys(_),
            ),
            r is Ok ==> r->Ok_0@ == parse_pairs(text@),
    {
        let cs = chars_of(text);
        let mut options: Vec<(String, String)> = Vec::new();
        let mut start: usize = 0;
        let mut i: usize = 0;
        proof {
            lemma_split_lines_nonempty(cs@.subrange(0, 0));
        }
        assert(split_lines(cs@.subrange(0, 0)) =~= seq![Seq::<char>::empty()]);
        while i < cs.len()
            invariant
                start <= i <= cs@.len(),
                split_lines(cs@.subrange(0, i as int)).len() > 0,
                split_lines(cs@.subrange(0, i as int)).last() == cs@.subrange(
                    start as int,
                    i as int,
                ),
                options@.map_values(|p: (String, String)| (p.0@, p.1@)) == config_pairs(
                    split_lines(cs@.subrange(0, i as int)).drop_last(),
                ),
            decreases cs@.len() - i,
        {
            let ghost lines = split_lines(cs@.subrange(0, i as int));
            let ghost next = cs@.subrange(0, i + 1);
            assert(next.drop_last() =~= cs@.subrange(0, i as int));
            proof {
                lemma_split_lines_nonempty(next);
            }
            if cs[i] == '\n' {
                let ghost before = options@.map_values(|p: (String, String)| (p.0@, p.1@));
                assert(split_lines(next).drop_last() =~= lines);
                assert(lines =~= lines.drop_last().push(lines.last()));
                match parse_line(&cs, start, i) {
                    Some(kv) => {
                        let (k, v) = kv;
                        options.push((string_of(&k), string_of(&v)));
                        assert(options@.map_values(|p: (String, String)| (p.0@, p.1@)) =~= before.push(
                            (k@, v@),
                        ));
                    },
                    None => {},
                }
                start = i + 1;
                assert(split_lines(next).last() =~= cs@.subrange(start as int, i + 1));
            } else {
                assert(split_lines(next).drop_last() =~= lines.drop_last());
                assert(split_lines(next).last() =~= cs@.subrange(start as int, i + 1));
            }
            i = i + 1;
        }
        assert(cs@.subrange(0, cs@.len() as int) =~= text@);
        let ghost lines = split_lines(text@);
        assert(lines =~= lines.drop_last().push(lines.last()));
        let ghost before = options@.map_values(|p: (String, String)| (p.0@, p.1@));
        match parse_line(&cs, start, cs.len()) {
            Some(kv) => {
                let (k, v) = kv;
                options.push((string_of(&k), string_of(&v)));
                assert(options@.map_values(|p: (String, String)| (p.0@, p.1@)) =~= before.push(
                    (k@, v@),
                ));
            },
            None => {},
        }
        let handle = ConfigHandle { options };
        if handle.options.len() == 0 {
            return Err(ConfigError::NoValidSettings);
        }
        let required = vec![
            String::from_str("host_ip"),
            String::from_str("host_port"),
            String::from_str("msg_size"),
            String::from_str("prefix"),
        ];
        assert(string_views(required@) =~= required_keys());
        let mut missing: Vec<String> = Vec::new();
        let mut j: usize = 0;
        while j < required.len()
            invariant
                j <= required@.len(),
                string_views(required@) == required_keys(),
                handle@ == parse_pairs(text@),
                string_views(missing@) == missing_keys(
                    required_keys().subrange(0, j as int),
                    handle@,
                ),
            decreases required@.len() - j,
        {
            assert(required_keys().subrange(0, j + 1).drop_last() =~= required_keys().subrange(
                0,
                j as int,
            ));
            let ghost before = string_views(missing@);
            if handle.find(required[j].as_str()).is_none() {
                missing.push(required[j].clone());
                assert(string_views(missing@) =~= before.push(required_keys()[j as int]));
            }
            j = j + 1;
        }
        assert(required_keys().subrange(0, 4) =~= required_keys());
        if missing.len() > 0 {
            return Err(ConfigError::MissingKeys(missing));
        }
        Ok(handle)
    }

    /// The value last set for `key`.
    fn find(&self, key: &str) -> (r: Option<&String>)
        ensures
            lookup(self@, key@) is None ==> r is None,
            lookup(self@, key@) is Some ==> r is Some && r->0@ == lookup(self@, key@)->0,
    {
        let k = String::from_str(key);
        let mut i: usize = self.options.len();
        assert(self@.subrange(0, i as int) =~= self@);
        while i > 0
            invariant
                i <= self@.len(),
                self@.len() == self.options@.len(),
                k@ == key@,
                lookup(self@, key@) == lookup(self@.subrange(0, i as int), key@),
            decreases i,
        {
            let ghost pre = self@.subrange(0, i as int);
            assert(pre.drop_last() =~= self@.subrange(0, i - 1));
            if self.options[i - 1].0 == k {
                return Some(&self.options[i - 1].1);
            }
            i = i - 1;
        }
        None
    }

    /// The value of `key`, if the config sets it.
    pub fn get_value_string(&self, key: &str) -> (r: Option<String>)
        ensures
            lookup(self@, key@) is None ==> r is None,
            lookup(self@, key@) is Some ==> r is Some && r->0@ == lookup(self@, key@)->0,
    {
        match self.find(key) {
            Some(v) => Some(v.clone()),
            None => None,
        }
    }

    /// The value of `key` as a number, if the config sets it. A value that
    /// is set must be an unsigned decimal number that fits.
    pub fn get_value_usize(&self, key: &str) -> (r: Option<usize>)
        requires
            lookup(self@, key@) is Some ==> parses_as_usize(lookup(self@, key@)->0),
        ensures
            lookup(self@, key@) is None ==> r is None,
            lookup(self@, key@) is Some ==> r == Some(
                digits_value(unsigned_digits(lookup(self@, key@)->0)) as usize,
            ),
    {
        match self.find(key) {
            Some(v) => parse_usize(v),
            None => None,
        }
    }
}

} // verus!
