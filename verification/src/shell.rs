use vstd::prelude::*;
use crate::ShellError;

verus! {

/// The mapping that a list of key/value pairs denotes: later entries win.
pub open spec fn pairs_map(s: Seq<(String, String)>) -> Map<Seq<char>, Seq<char>>
    decreases s.len(),
{
    if s.len() == 0 {
        Map::empty()
    } else {
        pairs_map(s.drop_last()).insert(s.last().0@, s.last().1@)
    }
}

/// The keys of a pair list are pairwise distinct.
pub open spec fn unique_keys(s: Seq<(String, String)>) -> bool {
    forall|i: int, j: int| 0 <= i < j < s.len() ==> (#[trigger] s[i]).0@ != (#[trigger] s[j]).0@
}

proof fn lemma_pairs_map_contains(s: Seq<(String, String)>, key: Seq<char>)
    ensures
        pairs_map(s).contains_key(key) <==> exists|i: int| 0 <= i < s.len() && (#[trigger] s[i]).0@
            == key,
    decreases s.len(),
{
    if s.len() > 0 {
        lemma_pairs_map_contains(s.drop_last(), key);
        if pairs_map(s).contains_key(key) {
            if s.last().0@ != key {
                let i = choose|i: int| 0 <= i < s.drop_last().len() && (#[trigger] s.drop_last()[i]).0@ == key;
                assert(s[i].0@ == key);
            }
        } else {
            assert(forall|i: int| 0 <= i < s.len() - 1 ==> (#[trigger] s[i]) == s.drop_last()[i]);
        }
    }
}

/// Removing the entry at `i` leaves every other key's value unchanged.
proof fn lemma_pairs_map_remove(s: Seq<(String, String)>, i: int, key: Seq<char>)
    requires
        0 <= i < s.len(),
        unique_keys(s),
        s[i].0@ != key,
    ensures
        pairs_map(s.remove(i)).contains_key(key) <==> pairs_map(s).contains_key(key),
        pairs_map(s).contains_key(key) ==> pairs_map(s.remove(i))[key] == pairs_map(s)[key],
    decreases s.len(),
{
    if i == s.len() - 1 {
        assert(s.remove(i) =~= s.drop_last());
    } else {
        let t = s.drop_last();
        lemma_pairs_map_remove(t, i, key);
        assert(s.remove(i) =~= t.remove(i).push(s.last()));
        assert(t.remove(i).push(s.last()).drop_last() =~= t.remove(i));
    }
}

proof fn lemma_unique_remove(s: Seq<(String, String)>, i: int)
    requires
        0 <= i < s.len(),
        unique_keys(s),
    ensures
        unique_keys(s.remove(i)),
{
    assert forall|a: int, b: int| 0 <= a < b < s.remove(i).len() implies (#[trigger] s.remove(
        i,
    )[a]).0@ != (#[trigger] s.remove(i)[b]).0@ by {
        let a2 = if a < i {
            a
        } else {
            a + 1
        };
        let b2 = if b < i {
            b
        } else {
            b + 1
        };
        assert(s.remove(i)[a] == s[a2]);
        assert(s.remove(i)[b] == s[b2]);
    }
}

/// Looks a key up in a pair list, later entries winning.
fn map_get<'a>(v: &'a Vec<(String, String)>, key: &str) -> (r: Option<&'a String>)
    ensures
        match r {
            Some(val) => pairs_map(v@).contains_key(key@) && val@ == pairs_map(v@)[key@],
            None => !pairs_map(v@).contains_key(key@),
        },
{
    let mut i: usize = v.len();
    proof {
        assert(v@.take(v@.len() as int) =~= v@);
    }
    loop
        invariant
            i <= v@.len(),
            pairs_map(v@.take(i as int)).contains_key(key@) == pairs_map(v@).contains_key(key@),
            pairs_map(v@).contains_key(key@) ==> pairs_map(v@.take(i as int))[key@] == pairs_map(
                v@,
            )[key@],
        decreases i,
    {
        if i == 0 {
            proof {
                assert(v@.take(0) =~= Seq::<(String, String)>::empty());
            }
            return None;
        }
        i = i - 1;
        let pair = vstd::std_specs::vec::vec_index(v, i);
        proof {
            assert(v@.take(i + 1).drop_last() =~= v@.take(i as int));
            assert(v@.take(i + 1).last() == v@[i as int]);
        }
        if crate::parser::str_eq(pair.0.as_str(), key) {
            return Some(&pair.1);
        }
    }
}

/// Binds a key to a value in a pair list, replacing any earlier binding.
fn map_set(v: &mut Vec<(String, String)>, key: String, val: String)
    requires
        unique_keys(old(v)@),
    ensures
        unique_keys(final(v)@),
        pairs_map(final(v)@) == pairs_map(old(v)@).insert(key@, val@),
{
    let ghost orig = v@;
    let mut i: usize = 0;
    let mut found: Option<usize> = None;
    loop
        invariant
            v@ == orig,
            i <= v@.len(),
            found matches Some(k) ==> k < v@.len() && v@[k as int].0@ == key@,
            found is None ==> forall|j: int| 0 <= j < i ==> (#[trigger] v@[j]).0@ != key@,
        ensures
            v@ == orig,
            found matches Some(k) ==> k < v@.len() && v@[k as int].0@ == key@,
            found is None ==> forall|j: int| 0 <= j < v@.len() ==> (#[trigger] v@[j]).0@ != key@,
        decreases v@.len() - i,
    {
        if i >= v.len() {
            break ;
        }
        let pair = vstd::std_specs::vec::vec_index(v, i);
        if crate::parser::str_eq(pair.0.as_str(), key.as_str()) {
            found = Some(i);
            break ;
        }
        i = i + 1;
    }
    match found {
        Some(k) => {
            v.remove(k);
            proof {
                lemma_unique_remove(orig, k as int);
            }
            let ghost removed = v@;
            v.push((key, val));
            proof {
                assert(v@.drop_last() =~= removed);
                assert forall|a: int, b: int|
                    0 <= a < b < v@.len() implies (#[trigger] v@[a]).0@ != (#[trigger] v@[b]).0@ by {
                    if b == v@.len() - 1 {
                        lemma_pairs_map_contains(removed, v@[b].0@);
                        if removed[a].0@ == v@[b].0@ {
                            let a2 = if a < k as int {
                                a
                            } else {
                                a + 1
                            };
                            assert(orig[a2].0@ == key@);
                            assert(orig[k as int].0@ == key@);
                            assert(a2 != k as int);
                            assert(false);
                        }
                    } else {
                        assert(v@[a] == removed[a]);
                        assert(v@[b] == removed[b]);
                        lemma_unique_remove(orig, k as int);
                    }
                }
                assert forall|key2: Seq<char>|
                    #[trigger] pairs_map(v@).contains_key(key2) == pairs_map(orig).insert(
                        key@,
                        val@,
                    ).contains_key(key2) && (pairs_map(v@).contains_key(key2) ==> pairs_map(
                    v@,
                )[key2] == pairs_map(orig).insert(key@, val@)[key2]) by {
                    if key2 != key@ {
                        lemma_pairs_map_remove(orig, k as int, key2);
                    }
                }
                assert(pairs_map(v@) =~= pairs_map(orig).insert(key@, val@));
            }
        },
        None => {
            v.push((key, val));
            proof {
                assert(v@.drop_last() =~= orig);
                assert forall|a: int, b: int|
                    0 <= a < b < v@.len() implies (#[trigger] v@[a]).0@ != (#[trigger] v@[b]).0@ by {
                    if b == v@.len() - 1 {
                        assert(v@[a] == orig[a]);
                    } else {
                        assert(v@[a] == orig[a]);
                        assert(v@[b] == orig[b]);
                    }
                }
            }
        },
    }
}

/// The mathematical shape of the shell state: the two directories, the
/// variable and alias mappings, and the last exit status.
pub struct ShellView {
    pub home_dir: Seq<char>,
    pub current_dir: Seq<char>,
    pub vars: Map<Seq<char>, Seq<char>>,
    pub aliases: Map<Seq<char>, Seq<char>>,
    pub exit_status: int,
}

/// The shared mutable context of the shell: home and current directory,
/// the variable and alias tables, and the last exit status. The recorded
/// current directory mirrors the operating system's working directory: the
/// caller changes the one exactly when it commits the other.
pub struct Shell {
    home_dir: String,
    current_dir: String,
    vars: Vec<(String, String)>,
    aliases: Vec<(String, String)>,
    exit_status: i32,
}

impl View for Shell {
    type V = ShellView;

    closed spec fn view(&self) -> ShellView {
        ShellView {
            home_dir: self.home_dir@,
            current_dir: self.current_dir@,
            vars: pairs_map(self.vars@),
            aliases: pairs_map(self.aliases@),
            exit_status: self.exit_status as int,
        }
    }
}

/// Relies on dirs::home_dir: the platform's home directory for the current
/// user, read from the environment, or `None` where there is none or its
/// path is not text.
#[verifier::external_body]
fn os_home_dir() -> (r: Option<String>) {
    match dirs::home_dir() {
        Some(p) => match p.into_os_string().into_string() {
            Ok(s) => Some(s),
            Err(_) => None,
        },
        None => None,
    }
}

impl Shell {
    /// The key lists behind the variable and alias tables hold each key once.
    pub closed spec fn wf(&self) -> bool {
        unique_keys(self.vars@) && unique_keys(self.aliases@)
    }

    /// Builds the shell state at startup: the home directory is discovered
    /// from the platform (an undiscoverable home is the one failure, and it
    /// is fatal: `NotFound`); the inherited environment seeds the variable
    /// table, then `PWD`, `HOME` and `SHELL` are overwritten with the
    /// computed values; the current directory starts at home; no aliases;
    /// exit status zero. The caller synchronizes the operating system's
    /// working directory to home.
    pub fn new(env: Vec<(String, String)>, shell_path: String) -> (r: Result<Shell, ShellError>)
        ensures
            r matches Err(e) ==> e == ShellError::NotFound,
            r matches Ok(sh) ==> {
                &&& sh.wf()
                &&& sh@.current_dir == sh@.home_dir
                &&& sh@.vars == seed_map(env@, sh@.home_dir, shell_path@)
                &&& sh@.aliases == Map::<Seq<char>, Seq<char>>::empty()
                &&& sh@.exit_status == 0
            },
    {
        let home = match os_home_dir() {
            Some(h) => h,
            None => {
                return Err(ShellError::NotFound);
            },
        };
        let mut vars: Vec<(String, String)> = Vec::new();
        let n = env.len();
        let mut i: usize = 0;
        while i < n
            invariant
                i <= n,
                n == env@.len(),
                unique_keys(vars@),
                pairs_map(vars@) == pairs_map(env@.take(i as int)),
            decreases n - i,
        {
            let pair = vstd::std_specs::vec::vec_index(&env, i);
            proof {
                assert(env@.take(i + 1).drop_last() =~= env@.take(i as int));
                assert(env@.take(i + 1).last() == env@[i as int]);
            }
            map_set(&mut vars, pair.0.clone(), pair.1.clone());
            i = i + 1;
        }
        proof {
            assert(env@.take(n as int) =~= env@);
        }
        map_set(&mut vars, crate::parser::copy_str("PWD"), home.clone());
        map_set(&mut vars, crate::parser::copy_str("HOME"), home.clone());
        map_set(&mut vars, crate::parser::copy_str("SHELL"), shell_path);
        Ok(
            Shell {
                home_dir: home.clone(),
                current_dir: home,
                vars,
                aliases: Vec::new(),
                exit_status: 0,
            },
        )
    }

    /// The recorded current directory.
    pub fn current_dir(&self) -> (r: &String)
        ensures
            r@ == self@.current_dir,
    {
        &self.current_dir
    }

    /// The resolved home directory.
    pub fn home_dir(&self) -> (r: &String)
        ensures
            r@ == self@.home_dir,
    {
        &self.home_dir
    }

    /// The last exit status.
    pub fn exit_status(&self) -> (r: i32)
        ensures
            r as int == self@.exit_status,
    {
        self.exit_status
    }

    /// Records the exit status of a completed command.
    pub fn set_exit_status(&mut self, code: i32)
        requires
            old(self).wf(),
        ensures
            final(self).wf(),
            final(self)@ == (ShellView { exit_status: code as int, ..old(self)@ }),
    {
        self.exit_status = code;
    }

    /// The stored value of a variable, if any.
    pub fn get_variable(&self, name: &str) -> (r: Option<&String>)
        ensures
            match r {
                Some(val) => self@.vars.contains_key(name@) && val@ == self@.vars[name@],
                None => !self@.vars.contains_key(name@),
            },
    {
        map_get(&self.vars, name)
    }

    /// The variable table as key/value pairs, for the caller to hand an
    /// external process as its environment; each key appears once.
    pub fn variable_pairs(&self) -> (r: &Vec<(String, String)>)
        ensures
            pairs_map(r@) == self@.vars,
            self.wf() ==> unique_keys(r@),
    {
        &self.vars
    }

    /// The stored replacement of an alias, if any.
    pub fn get_alias(&self, name: &str) -> (r: Option<&String>)
        ensures
            match r {
                Some(val) => self@.aliases.contains_key(name@) && val@ == self@.aliases[name@],
                None => !self@.aliases.contains_key(name@),
            },
    {
        map_get(&self.aliases, name)
    }
}

/// The decimal digit character for a value below ten.
pub open spec fn dec_digit(n: int) -> char {
    if n == 0 {
        '0'
    } else if n == 1 {
        '1'
    } else if n == 2 {
        '2'
    } else if n == 3 {
        '3'
    } else if n == 4 {
        '4'
    } else if n == 5 {
        '5'
    } else if n == 6 {
        '6'
    } else if n == 7 {
        '7'
    } else if n == 8 {
        '8'
    } else {
        '9'
    }
}

/// The decimal digits of a natural number, most significant first.
pub open spec fn spec_nat_digits(n: nat) -> Seq<char>
    decreases n,
{
    if n < 10 {
        seq![dec_digit(n as int)]
    } else {
        spec_nat_digits(n / 10).push(dec_digit((n % 10) as int))
    }
}

/// The decimal rendering of an integer, with a leading minus when negative.
pub open spec fn spec_int_string(n: int) -> Seq<char> {
    if n < 0 {
        seq!['-'] + spec_nat_digits((-n) as nat)
    } else {
        spec_nat_digits(n as nat)
    }
}

fn digit_char(n: u64) -> (r: char)
    requires
        n < 10,
    ensures
        r == dec_digit(n as int),
{
    if n == 0 {
        '0'
    } else if n == 1 {
        '1'
    } else if n == 2 {
        '2'
    } else if n == 3 {
        '3'
    } else if n == 4 {
        '4'
    } else if n == 5 {
        '5'
    } else if n == 6 {
        '6'
    } else if n == 7 {
        '7'
    } else if n == 8 {
        '8'
    } else {
        '9'
    }
}

fn u64_digits(n: u64) -> (r: Vec<char>)
    ensures
        r@ == spec_nat_digits(n as nat),
    decreases n,
{
    if n < 10 {
        let mut v: Vec<char> = Vec::new();
        v.push(digit_char(n));
        proof {
            assert(v@ =~= seq![dec_digit(n as int)]);
        }
        v
    } else {
        let mut v = u64_digits(n / 10);
        v.push(digit_char(n % 10));
        v
    }
}

/// Renders an integer in decimal.
pub fn int_to_string(n: i32) -> (r: String)
    ensures
        r@ == spec_int_string(n as int),
{
    if n < 0 {
        let wide: i64 = n as i64;
        let mag: u64 = (-wide) as u64;
        let mut v: Vec<char> = Vec::new();
        v.push('-');
        let mut digits = u64_digits(mag);
        proof {
            assert(v@ =~= seq!['-']);
        }
        v.append(&mut digits);
        crate::token::chars_to_string(&v)
    } else {
        let digits = u64_digits(n as u64);
        crate::token::chars_to_string(&digits)
    }
}

/// The first position at or after `p` holding the character `c`, or the
/// length of the text.
pub open spec fn find_char(s: Seq<char>, p: nat, c: char) -> nat
    decreases s.len() - p,
{
    if p >= s.len() {
        p
    } else if s[p as int] == c {
        p
    } else {
        find_char(s, (p + 1) as nat, c)
    }
}

pub proof fn lemma_find_char(s: Seq<char>, p: nat, c: char)
    requires
        p <= s.len(),
    ensures
        p <= find_char(s, p, c) <= s.len(),
        find_char(s, p, c) < s.len() ==> s[find_char(s, p, c) as int] == c,
    decreases s.len() - p,
{
    if p < s.len() && s[p as int] != c {
        lemma_find_char(s, (p + 1) as nat, c);
    }
}

/// Position before any run of characters satisfying `quote_char` at the end
/// of the prefix `s[..q]`.
pub open spec fn skip_back(s: Seq<char>, q: nat, c: char) -> nat
    decreases q,
{
    if q > 0 && q <= s.len() && s[q - 1] == c {
        skip_back(s, (q - 1) as nat, c)
    } else {
        q
    }
}

/// Position before any run of blanks at the end of the prefix `s[..q]`.
pub open spec fn skip_blanks_back(s: Seq<char>, q: nat) -> nat
    decreases q,
{
    if q > 0 && q <= s.len() && crate::token::blank_char(s[q - 1]) {
        skip_blanks_back(s, (q - 1) as nat)
    } else {
        q
    }
}

proof fn lemma_skip_blanks_back_le(s: Seq<char>, q: nat)
    ensures
        skip_blanks_back(s, q) <= q,
    decreases q,
{
    if q > 0 && q <= s.len() && crate::token::blank_char(s[q - 1]) {
        lemma_skip_blanks_back_le(s, (q - 1) as nat);
    }
}

proof fn lemma_skip_back_le(s: Seq<char>, q: nat, c: char)
    ensures
        skip_back(s, q, c) <= q,
    decreases q,
{
    if q > 0 && q <= s.len() && s[q - 1] == c {
        lemma_skip_back_le(s, (q - 1) as nat, c);
    }
}

/// The text with leading and trailing spaces and tabs removed.
pub open spec fn spec_trim_blanks(s: Seq<char>) -> Seq<char> {
    let a = crate::token::skip_blanks(s, 0);
    let b = skip_blanks_back(s, s.len());
    if a <= b {
        s.subrange(a as int, b as int)
    } else {
        Seq::empty()
    }
}

/// The text with leading and trailing double quotes removed.
pub open spec fn spec_trim_quotes(s: Seq<char>) -> Seq<char> {
    let a = skip_front(s, 0, '"');
    let b = skip_back(s, s.len(), '"');
    if a <= b {
        s.subrange(a as int, b as int)
    } else {
        Seq::empty()
    }
}

/// Position after any run of characters equal to `c` from `p`.
pub open spec fn skip_front(s: Seq<char>, p: nat, c: char) -> nat
    decreases s.len() - p,
{
    if p < s.len() && s[p as int] == c {
        skip_front(s, (p + 1) as nat, c)
    } else {
        p
    }
}

fn trim_range(chars: &Vec<char>, a: usize, b: usize) -> (r: String)
    requires
        a <= b <= chars@.len(),
    ensures
        r@ == chars@.subrange(a as int, b as int),
{
    let mut out: Vec<char> = Vec::new();
    let mut i: usize = a;
    while i < b
        invariant
            a <= i <= b <= chars@.len(),
            out@ == chars@.subrange(a as int, i as int),
        decreases b - i,
    {
        out.push(chars[i]);
        proof {
            assert(out@ =~= chars@.subrange(a as int, i + 1));
        }
        i = i + 1;
    }
    crate::token::chars_to_string(&out)
}

pub(crate) fn trim_blanks(text: &str) -> (r: String)
    ensures
        r@ == spec_trim_blanks(text@),
{
    let chars = crate::token::str_chars(text);
    let n = chars.len();
    let mut a: usize = 0;
    while a < n && (chars[a] == ' ' || chars[a] == '\t')
        invariant
            a <= n,
            n == chars@.len(),
            crate::token::skip_blanks(chars@, a as nat) == crate::token::skip_blanks(chars@, 0),
        decreases n - a,
    {
        a = a + 1;
    }
    let mut b: usize = n;
    while b > a && (chars[b - 1] == ' ' || chars[b - 1] == '\t')
        invariant
            a <= b <= n,
            n == chars@.len(),
            a == crate::token::skip_blanks(chars@, 0),
            skip_blanks_back(chars@, b as nat) == skip_blanks_back(chars@, n as nat),
        decreases b,
    {
        b = b - 1;
    }
    proof {
        if b > 0 && b == a && crate::token::blank_char(chars@[b - 1]) {
            lemma_skip_blanks_back_le(chars@, (b - 1) as nat);
            assert(skip_blanks_back(chars@, b as nat) == skip_blanks_back(chars@, (b - 1) as nat));
        }
        assert(chars@.subrange(a as int, a as int) =~= Seq::<char>::empty());
    }
    trim_range(&chars, a, b)
}

fn trim_quotes(text: &str) -> (r: String)
    ensures
        r@ == spec_trim_quotes(text@),
{
    let chars = crate::token::str_chars(text);
    let n = chars.len();
    let mut a: usize = 0;
    while a < n && chars[a] == '"'
        invariant
            a <= n,
            n == chars@.len(),
            skip_front(chars@, a as nat, '"') == skip_front(chars@, 0, '"'),
        decreases n - a,
    {
        a = a + 1;
    }
    let mut b: usize = n;
    while b > a && chars[b - 1] == '"'
        invariant
            a <= b <= n,
            n == chars@.len(),
            a == skip_front(chars@, 0, '"'),
            skip_back(chars@, b as nat, '"') == skip_back(chars@, n as nat, '"'),
        decreases b,
    {
        b = b - 1;
    }
    proof {
        if b > 0 && b == a && chars@[b - 1] == '"' {
            lemma_skip_back_le(chars@, (b - 1) as nat, '"');
            assert(skip_back(chars@, b as nat, '"') == skip_back(chars@, (b - 1) as nat, '"'));
        }
        assert(chars@.subrange(a as int, a as int) =~= Seq::<char>::empty());
    }
    trim_range(&chars, a, b)
}

/// The variable table change that `NAME=VALUE` text asks for: the name is
/// trimmed of blanks, the value of surrounding double quotes; text without
/// `=` changes nothing and fails.
pub open spec fn spec_assignment_of(text: Seq<char>) -> Option<(Seq<char>, Seq<char>)> {
    let k = find_char(text, 0, '=');
    if k >= text.len() {
        None
    } else {
        Some(
            (
                spec_trim_blanks(text.subrange(0, k as int)),
                spec_trim_quotes(text.subrange(k + 1 as int, text.len() as int)),
            ),
        )
    }
}

fn split_first_eq(text: &str) -> (r: Option<(String, String)>)
    ensures
        match (r, spec_assignment_of(text@)) {
            (Some(p), Some(q)) => p.0@ == q.0 && p.1@ == q.1,
            (None, None) => true,
            _ => false,
        },
{
    let chars = crate::token::str_chars(text);
    let n = chars.len();
    let mut k: usize = 0;
    while k < n && chars[k] != '='
        invariant
            k <= n,
            n == chars@.len(),
            find_char(chars@, k as nat, '=') == find_char(chars@, 0, '='),
        decreases n - k,
    {
        k = k + 1;
    }
    if k >= n {
        return None;
    }
    let key_part = trim_range(&chars, 0, k);
    let val_part = trim_range(&chars, k + 1, n);
    let key = trim_blanks(key_part.as_str());
    let val = trim_quotes(val_part.as_str());
    Some((key, val))
}

impl Shell {
    /// Records a `NAME=VALUE` variable assignment: the name is trimmed of
    /// blanks, the value of surrounding double quotes; success sets exit
    /// status zero, text without `=` sets exit status one and changes no
    /// variable. `?` means the last exit status and is intercepted: it is
    /// never stored in the variable table.
    pub fn add_variable(&mut self, text: &str)
        requires
            old(self).wf(),
        ensures
            final(self).wf(),
            match spec_assignment_of(text@) {
                Some(kv) => final(self)@ == (if kv.0 == seq!['?'] {
                    ShellView { exit_status: 0, ..old(self)@ }
                } else {
                    ShellView {
                        vars: old(self)@.vars.insert(kv.0, kv.1),
                        exit_status: 0,
                        ..old(self)@
                    }
                }),
                None => final(self)@ == (ShellView { exit_status: 1, ..old(self)@ }),
            },
    {
        match split_first_eq(text) {
            Some((key, val)) => {
                let mut q: Vec<char> = Vec::new();
                q.push('?');
                proof {
                    assert(q@ =~= seq!['?']);
                }
                let qs = crate::token::chars_to_string(&q);
                if !crate::parser::str_eq(key.as_str(), qs.as_str()) {
                    map_set(&mut self.vars, key, val);
                }
                self.exit_status = 0;
            },
            None => {
                self.exit_status = 1;
            },
        }
    }

    /// Records a `NAME=VALUE` alias definition, under the same trimming and
    /// status rules as a variable assignment.
    pub fn add_alias(&mut self, text: &str)
        requires
            old(self).wf(),
        ensures
            final(self).wf(),
            match spec_assignment_of(text@) {
                Some(kv) => final(self)@ == (ShellView {
                    aliases: old(self)@.aliases.insert(kv.0, kv.1),
                    exit_status: 0,
                    ..old(self)@
                }),
                None => final(self)@ == (ShellView { exit_status: 1, ..old(self)@ }),
            },
    {
        match split_first_eq(text) {
            Some((key, val)) => {
                map_set(&mut self.aliases, key, val);
                self.exit_status = 0;
            },
            None => {
                self.exit_status = 1;
            },
        }
    }
}

/// The views of a sequence of strings, element by element.
pub open spec fn str_views(ss: Seq<String>) -> Seq<Seq<char>> {
    Seq::new(ss.len(), |i: int| ss[i]@)
}

/// The resolved text of a `$name` or `${name}` reference: `?` is the last
/// exit status in decimal; a stored variable gives its value; an absent one
/// gives the original literal text unchanged.
pub open spec fn spec_var_value(sv: ShellView, name: Seq<char>, braced: bool) -> Seq<char> {
    if name == seq!['?'] {
        spec_int_string(sv.exit_status)
    } else if sv.vars.contains_key(name) {
        sv.vars[name]
    } else if braced {
        seq!['$', '{'] + name + seq!['}']
    } else {
        seq!['$'] + name
    }
}

/// The resolved text of one piece of a double-quoted word: literal runs
/// pass through unchanged, variable references are resolved independently.
pub open spec fn spec_expand_piece(sv: ShellView, p: crate::ast::PieceView) -> Seq<char> {
    match p {
        crate::ast::PieceView::Literal(t) => t,
        crate::ast::PieceView::Variable(n) => spec_var_value(sv, n, false),
        crate::ast::PieceView::VariableBraced(n) => spec_var_value(sv, n, true),
    }
}

/// The concatenated resolution of the pieces of a double-quoted word from
/// index `i` on.
pub open spec fn spec_expand_pieces(sv: ShellView, ps: Seq<crate::ast::PieceView>, i: int) -> Seq<
    char,
>
    decreases ps.len() - i,
{
    if i < 0 || i >= ps.len() {
        Seq::empty()
    } else {
        spec_expand_piece(sv, ps[i]) + spec_expand_pieces(sv, ps, i + 1)
    }
}

/// The resolved text of one word: a leading `~` in a bare word becomes the
/// home directory; single-quoted text is opaque; variable references
/// resolve against the state; double-quoted pieces concatenate.
pub open spec fn spec_expand_word(sv: ShellView, w: crate::ast::WordView) -> Seq<char> {
    match w {
        crate::ast::WordView::Literal(t) => if t.len() > 0 && t[0] == '~' {
            sv.home_dir + t.drop_first()
        } else {
            t
        },
        crate::ast::WordView::SingleQuoted(t) => t,
        crate::ast::WordView::Variable(n) => spec_var_value(sv, n, false),
        crate::ast::WordView::VariableBraced(n) => spec_var_value(sv, n, true),
        crate::ast::WordView::DoubleQuoted(ps) => spec_expand_pieces(sv, ps, 0),
    }
}

impl Shell {
    /// Resolves a `$name`/`${name}` reference: `?` yields the last exit
    /// status, a stored variable its value, an absent one the original
    /// literal text unchanged.
    fn expand_variable(&self, name: &str, braced: bool) -> (r: String)
        ensures
            r@ == spec_var_value(self@, name@, braced),
    {
        let mut q: Vec<char> = Vec::new();
        q.push('?');
        proof {
            assert(q@ =~= seq!['?']);
        }
        let qs = crate::token::chars_to_string(&q);
        if crate::parser::str_eq(name, qs.as_str()) {
            return int_to_string(self.exit_status);
        }
        match self.get_variable(name) {
            Some(v) => v.clone(),
            None => {
                let mut out: Vec<char> = Vec::new();
                out.push('$');
                if braced {
                    out.push('{');
                }
                let mut name_chars = crate::token::str_chars(name);
                out.append(&mut name_chars);
                if braced {
                    out.push('}');
                    proof {
                        assert(out@ =~= seq!['$', '{'] + name@ + seq!['}']);
                    }
                } else {
                    proof {
                        assert(out@ =~= seq!['$'] + name@);
                    }
                }
                crate::token::chars_to_string(&out)
            },
        }
    }

    /// Resolves one word of a command against the state: tilde, variable
    /// and quoted-piece resolution as the expansion rules say.
    pub fn expand_word(&self, w: &crate::ast::Word) -> (r: String)
        ensures
            r@ == spec_expand_word(self@, w@),
    {
        match w {
            crate::ast::Word::Literal(t) => {
                let chars = crate::token::str_chars(t.as_str());
                if chars.len() > 0 && chars[0] == '~' {
                    let mut out = crate::token::str_chars(self.home_dir.as_str());
                    let mut i: usize = 1;
                    let n = chars.len();
                    while i < n
                        invariant
                            1 <= i <= n,
                            n == chars@.len(),
                            out@ == self.home_dir@ + chars@.subrange(1, i as int),
                        decreases n - i,
                    {
                        out.push(chars[i]);
                        proof {
                            assert(out@ =~= self.home_dir@ + chars@.subrange(1, i + 1));
                        }
                        i = i + 1;
                    }
                    proof {
                        assert(chars@.subrange(1, n as int) =~= chars@.drop_first());
                    }
                    crate::token::chars_to_string(&out)
                } else {
                    t.clone()
                }
            },
            crate::ast::Word::SingleQuoted(t) => t.clone(),
            crate::ast::Word::Variable(n) => self.expand_variable(n.as_str(), false),
            crate::ast::Word::VariableBraced(n) => self.expand_variable(n.as_str(), true),
            crate::ast::Word::DoubleQuoted(ps) => {
                let mut out = String::new();
                let n = ps.len();
                let mut i: usize = 0;
                proof {
                    assert((w@)->DoubleQuoted_0 =~= Seq::new(
                        ps@.len(),
                        |k: int| ps@[k]@,
                    ));
                }
                while i < n
                    invariant
                        i <= n,
                        n == ps@.len(),
                        out@ + spec_expand_pieces(self@, (w@)->DoubleQuoted_0, i as int)
                            == spec_expand_pieces(self@, (w@)->DoubleQuoted_0, 0),
                        (w@)->DoubleQuoted_0 == Seq::new(ps@.len(), |k: int| ps@[k]@),
                    decreases n - i,
                {
                    let piece = match vstd::std_specs::vec::vec_index(ps, i) {
                        crate::ast::QuotedPiece::Literal(t) => t.clone(),
                        crate::ast::QuotedPiece::Variable(nm) => self.expand_variable(
                            nm.as_str(),
                            false,
                        ),
                        crate::ast::QuotedPiece::VariableBraced(nm) => self.expand_variable(
                            nm.as_str(),
                            true,
                        ),
                    };
                    proof {
                        let pv = (w@)->DoubleQuoted_0;
                        assert(pv[i as int] == ps@[i as int]@);
                        assert((out@ + spec_expand_piece(self@, pv[i as int]))
                            + spec_expand_pieces(self@, pv, i + 1) =~= out@ + (spec_expand_piece(
                            self@,
                            pv[i as int],
                        ) + spec_expand_pieces(self@, pv, i + 1)));
                    }
                    out.append(piece.as_str());
                    i = i + 1;
                }
                proof {
                    assert(spec_expand_pieces(self@, (w@)->DoubleQuoted_0, n as int)
                        =~= Seq::<char>::empty());
                    assert(out@ + Seq::<char>::empty() =~= out@);
                }
                out
            },
        }
    }
}

/// A sequence of strings holds one whose characters are `t`.
pub open spec fn contains_view(vs: Seq<String>, t: Seq<char>) -> bool {
    exists|k: int| 0 <= k < vs.len() && (#[trigger] vs[k])@ == t
}

fn contains_str(v: &Vec<String>, s: &str) -> (r: bool)
    ensures
        r == contains_view(v@, s@),
{
    let mut i: usize = 0;
    let n = v.len();
    while i < n
        invariant
            i <= n,
            n == v@.len(),
            forall|k: int| 0 <= k < i ==> (#[trigger] v@[k])@ != s@,
        decreases n - i,
    {
        if crate::parser::str_eq(vstd::std_specs::vec::vec_index(v, i).as_str(), s) {
            return true;
        }
        i = i + 1;
    }
    false
}

/// The result of bounded alias resolution: the first word is repeatedly
/// replaced by its stored alias text, split into a new first word and
/// words prepended to the arguments, until no alias exists for it, a name
/// repeats, or the expansion ceiling runs out, whichever comes first.
pub open spec fn spec_resolve_alias(
    aliases: Map<Seq<char>, Seq<char>>,
    name: Seq<char>,
    args: Seq<Seq<char>>,
    seen: Set<Seq<char>>,
    fuel: nat,
) -> (Seq<char>, Seq<Seq<char>>)
    decreases fuel,
{
    if fuel == 0 || seen.contains(name) || !aliases.contains_key(name) {
        (name, args)
    } else {
        let ws = crate::token::spec_split_blanks(aliases[name], 0);
        if ws.len() == 0 {
            (name, args)
        } else {
            spec_resolve_alias(
                aliases,
                ws[0],
                ws.drop_first() + args,
                seen.insert(name),
                (fuel - 1) as nat,
            )
        }
    }
}

/// The ceiling on alias expansions in one resolution.
pub open spec fn alias_expansion_ceiling() -> nat {
    32
}

impl Shell {
    /// Resolves the alias of a command's first word, bounded by a visited
    /// set and a ceiling of thirty-two expansions, so resolution always
    /// terminates even for self- or mutually-referential aliases.
    pub fn resolve_alias(&self, name: &String, args: &Vec<String>) -> (r: (String, Vec<String>))
        ensures
            (r.0@, str_views(r.1@)) == spec_resolve_alias(
                self@.aliases,
                name@,
                str_views(args@),
                Set::empty(),
                alias_expansion_ceiling(),
            ),
    {
        let mut cur = name.clone();
        let mut cur_args = crate::token::clone_strings(args);
        proof {
            assert(str_views(cur_args@) =~= str_views(args@));
        }
        let mut visited: Vec<String> = Vec::new();
        let ghost mut seen: Set<Seq<char>> = Set::empty();
        let mut fuel: usize = 32;
        proof {
            assert forall|t: Seq<char>| #[trigger] seen.contains(t) == contains_view(
                visited@,
                t,
            ) by {
                assert(!seen.contains(t));
            }
        }
        loop
            invariant
                fuel <= 32,
                forall|t: Seq<char>| #[trigger] seen.contains(t) == contains_view(visited@, t),
                spec_resolve_alias(
                    self@.aliases,
                    cur@,
                    str_views(cur_args@),
                    seen,
                    fuel as nat,
                ) == spec_resolve_alias(
                    self@.aliases,
                    name@,
                    str_views(args@),
                    Set::empty(),
                    32,
                ),
            decreases fuel,
        {
            if fuel == 0 {
                return (cur, cur_args);
            }
            if contains_str(&visited, cur.as_str()) {
                return (cur, cur_args);
            }
            let repl = match self.get_alias(cur.as_str()) {
                None => {
                    return (cur, cur_args);
                },
                Some(r) => r.clone(),
            };
            let mut ws = crate::token::split_blank_words(repl.as_str());
            if ws.len() == 0 {
                proof {
                    assert(crate::token::spec_split_blanks(self@.aliases[cur@], 0).len() == 0);
                }
                return (cur, cur_args);
            }
            let ghost cur0 = cur@;
            let ghost args0 = str_views(cur_args@);
            let ghost ws0 = str_views(ws@);
            let first = ws.remove(0);
            proof {
                assert(str_views(ws@) =~= ws0.drop_first());
            }
            let ghost visited_old = visited@;
            visited.push(cur.clone());
            proof {
                let ghost seen_old = seen;
                seen = seen.insert(cur0);
                assert(visited@.drop_last() =~= visited_old);
                assert forall|t: Seq<char>| #[trigger] seen.contains(t) == contains_view(
                    visited@,
                    t,
                ) by {
                    if t == cur0 {
                        assert(visited@[visited@.len() - 1]@ == cur0);
                    } else {
                        assert(seen.contains(t) == seen_old.contains(t));
                        if contains_view(visited_old, t) {
                            let k = choose|k: int|
                                0 <= k < visited_old.len() && (#[trigger] visited_old[k])@ == t;
                            assert(visited@[k]@ == t);
                            assert(contains_view(visited@, t));
                        }
                        if contains_view(visited@, t) {
                            let k = choose|k: int|
                                0 <= k < visited@.len() && (#[trigger] visited@[k])@ == t;
                            assert(visited@[visited@.len() - 1]@ == cur0);
                            assert(k < visited@.len() - 1);
                            assert(visited_old[k]@ == t);
                            assert(contains_view(visited_old, t));
                        }
                    }
                }
            }
            let mut new_args = ws;
            new_args.append(&mut cur_args);
            proof {
                assert(str_views(new_args@) =~= ws0.drop_first() + args0);
            }
            cur_args = new_args;
            cur = first;
            fuel = fuel - 1;
        }
    }
}

/// The path split at `/` separators into its raw components.
pub open spec fn split_sep(s: Seq<char>, p: nat) -> Seq<Seq<char>>
    decreases s.len() - p,
    when p <= s.len()
{
    let q = find_char(s, p, '/');
    proof {
        lemma_find_char(s, p, '/');
    }
    if q >= s.len() {
        seq![s.subrange(p as int, s.len() as int)]
    } else {
        seq![s.subrange(p as int, q as int)] + split_sep(s, (q + 1) as nat)
    }
}

/// Lexical normalization of path components: `..` drops the previous
/// component (nothing below the root), `.` and empty components vanish.
pub open spec fn norm_fold(parts: Seq<Seq<char>>, i: int, acc: Seq<Seq<char>>) -> Seq<Seq<char>>
    decreases parts.len() - i,
{
    if i < 0 || i >= parts.len() {
        acc
    } else {
        let c = parts[i];
        if c == ".."@ {
            norm_fold(
                parts,
                i + 1,
                if acc.len() > 0 {
                    acc.drop_last()
                } else {
                    acc
                },
            )
        } else if c == "."@ || c.len() == 0 {
            norm_fold(parts, i + 1, acc)
        } else {
            norm_fold(parts, i + 1, acc.push(c))
        }
    }
}

/// Path components rejoined, each preceded by a `/`.
pub open spec fn join_abs(parts: Seq<Seq<char>>, i: int) -> Seq<char>
    decreases parts.len() - i,
{
    if i < 0 || i >= parts.len() {
        Seq::empty()
    } else {
        seq!['/'] + parts[i] + join_abs(parts, i + 1)
    }
}

/// The purely lexical normal form of a path: components split at `/`,
/// `.`/`..`/empty components resolved with no filesystem access, and the
/// rest rejoined; an absolute path stays absolute.
pub open spec fn spec_normalize_path(s: Seq<char>) -> Seq<char> {
    let parts = norm_fold(split_sep(s, 0), 0, Seq::empty());
    if s.len() > 0 && s[0] == '/' {
        if parts.len() == 0 {
            seq!['/']
        } else {
            join_abs(parts, 0)
        }
    } else {
        if parts.len() == 0 {
            Seq::empty()
        } else {
            parts[0] + join_abs(parts, 1)
        }
    }
}

/// Normalizes `.` and `..` components of a path purely lexically.
pub fn normalize_path(path: &str) -> (r: String)
    ensures
        r@ == spec_normalize_path(path@),
{
    let chars = crate::token::str_chars(path);
    let n = chars.len();
    let absolute = n > 0 && chars[0] == '/';
    let mut parts: Vec<String> = Vec::new();
    let mut p: usize = 0;
    proof {
        assert(str_views(parts@) =~= Seq::<Seq<char>>::empty());
    }
    loop
        invariant_except_break
            p <= n,
            n == chars@.len(),
            chars@ == path@,
            split_sep(path@, 0) == str_views(parts@) + split_sep(path@, p as nat),
        ensures
            str_views(parts@) == split_sep(path@, 0),
        decreases n - p + 1,
    {
        let ghost p0 = p as nat;
        let mut k: usize = p;
        while k < n && chars[k] != '/'
            invariant
                p <= k <= n,
                n == chars@.len(),
                find_char(chars@, k as nat, '/') == find_char(chars@, p0, '/'),
            decreases n - k,
        {
            k = k + 1;
        }
        let comp = trim_range(&chars, p, k);
        proof {
            assert(find_char(chars@, k as nat, '/') == k as nat);
            assert(str_views(parts@.push(comp)) =~= str_views(parts@).push(comp@));
        }
        if k >= n {
            proof {
                assert(str_views(parts@).push(comp@) + Seq::<Seq<char>>::empty() =~= str_views(
                    parts@,
                ).push(comp@));
                assert(str_views(parts@) + seq![comp@] =~= str_views(parts@).push(comp@));
            }
            parts.push(comp);
            break ;
        }
        proof {
            assert((str_views(parts@).push(comp@)) + split_sep(path@, (k + 1) as nat) =~= str_views(
                parts@,
            ) + (seq![comp@] + split_sep(path@, (k + 1) as nat)));
        }
        parts.push(comp);
        p = k + 1;
    }
    let ghost all_parts = split_sep(path@, 0);
    let mut acc: Vec<String> = Vec::new();
    let m = parts.len();
    let mut i: usize = 0;
    proof {
        assert(str_views(acc@) =~= Seq::<Seq<char>>::empty());
        assert(all_parts == str_views(parts@));
    }
    while i < m
        invariant
            i <= m,
            m == parts@.len(),
            all_parts == str_views(parts@),
            norm_fold(all_parts, 0, Seq::empty()) == norm_fold(
                all_parts,
                i as int,
                str_views(acc@),
            ),
        decreases m - i,
    {
        let c = vstd::std_specs::vec::vec_index(&parts, i);
        if crate::parser::str_eq(c.as_str(), "..") {
            if acc.len() > 0 {
                let ghost accv = str_views(acc@);
                acc.pop();
                proof {
                    assert(str_views(acc@) =~= accv.drop_last());
                }
            }
        } else if crate::parser::str_eq(c.as_str(), ".") || c.as_str().is_empty() {
        } else {
            let ghost accv = str_views(acc@);
            acc.push(c.clone());
            proof {
                assert(str_views(acc@) =~= accv.push(c@));
            }
        }
        i = i + 1;
    }
    let ghost finals = norm_fold(all_parts, 0, Seq::empty());
    proof {
        assert(finals == str_views(acc@));
    }
    let mut out: Vec<char> = Vec::new();
    let la = acc.len();
    if absolute {
        if la == 0 {
            out.push('/');
            proof {
                assert(out@ =~= seq!['/']);
            }
            return crate::token::chars_to_string(&out);
        }
        let mut j: usize = 0;
        proof {
            assert(out@ =~= Seq::<char>::empty());
        }
        while j < la
            invariant
                j <= la,
                la == acc@.len(),
                finals == str_views(acc@),
                join_abs(finals, 0) == out@ + join_abs(finals, j as int),
            decreases la - j,
        {
            let ghost out0 = out@;
            out.push('/');
            let mut cc = crate::token::str_chars(
                vstd::std_specs::vec::vec_index(&acc, j).as_str(),
            );
            out.append(&mut cc);
            proof {
                assert(out@ =~= out0 + (seq!['/'] + finals[j as int]));
                assert(out0 + (seq!['/'] + finals[j as int] + join_abs(finals, j + 1)) =~= (out0
                    + (seq!['/'] + finals[j as int])) + join_abs(finals, j + 1));
                assert(seq!['/'] + finals[j as int] + join_abs(finals, j + 1) =~= (seq!['/']
                    + finals[j as int]) + join_abs(finals, j + 1));
            }
            j = j + 1;
        }
        proof {
            assert(out@ + join_abs(finals, la as int) =~= out@);
        }
        crate::token::chars_to_string(&out)
    } else {
        if la == 0 {
            return crate::token::chars_to_string(&out);
        }
        let mut cc0 = crate::token::str_chars(vstd::std_specs::vec::vec_index(&acc, 0).as_str());
        out.append(&mut cc0);
        proof {
            assert(out@ =~= finals[0]);
        }
        let mut j: usize = 1;
        while j < la
            invariant
                1 <= j <= la,
                la == acc@.len(),
                finals == str_views(acc@),
                finals[0] + join_abs(finals, 1) == out@ + join_abs(finals, j as int),
            decreases la - j,
        {
            let ghost out0 = out@;
            out.push('/');
            let mut cc = crate::token::str_chars(
                vstd::std_specs::vec::vec_index(&acc, j).as_str(),
            );
            out.append(&mut cc);
            proof {
                assert(out@ =~= out0 + (seq!['/'] + finals[j as int]));
                assert(out0 + (seq!['/'] + finals[j as int] + join_abs(finals, j + 1)) =~= (out0
                    + (seq!['/'] + finals[j as int])) + join_abs(finals, j + 1));
                assert(seq!['/'] + finals[j as int] + join_abs(finals, j + 1) =~= (seq!['/']
                    + finals[j as int]) + join_abs(finals, j + 1));
            }
            j = j + 1;
        }
        proof {
            assert(out@ + join_abs(finals, la as int) =~= out@);
        }
        crate::token::chars_to_string(&out)
    }
}

/// The path a `cd` resolves before normalization: no argument means home;
/// a leading `~` is replaced by home; an absolute argument stands alone; a
/// relative one is joined to the current directory.
pub open spec fn spec_cd_candidate(sv: ShellView, args: Seq<Seq<char>>) -> Seq<char> {
    if args.len() == 0 {
        sv.home_dir
    } else {
        let a = args[0];
        if a.len() > 0 && a[0] == '~' {
            sv.home_dir + a.drop_first()
        } else if a.len() > 0 && a[0] == '/' {
            a
        } else {
            sv.current_dir + seq!['/'] + a
        }
    }
}

impl Shell {
    /// Resolves the target of a `cd`: zero arguments mean home, one is
    /// resolved against home or the current directory and normalized
    /// purely lexically; more than one argument is rejected. The caller
    /// asks the operating system to change to the returned directory and
    /// then commits or fails the change.
    pub fn prepare_change_directory(&self, args: &Vec<String>) -> (r: Result<String, ShellError>)
        ensures
            args@.len() <= 1 ==> (r matches Ok(p) && p@ == spec_normalize_path(
                spec_cd_candidate(self@, str_views(args@)),
            )),
            args@.len() > 1 ==> r == Err::<String, ShellError>(ShellError::InvalidInput),
    {
        if args.len() > 1 {
            return Err(ShellError::InvalidInput);
        }
        let cand: String = if args.len() == 0 {
            self.home_dir.clone()
        } else {
            let a = vstd::std_specs::vec::vec_index(args, 0);
            let achars = crate::token::str_chars(a.as_str());
            let an = achars.len();
            if an > 0 && achars[0] == '~' {
                let mut out = crate::token::str_chars(self.home_dir.as_str());
                let mut i: usize = 1;
                while i < an
                    invariant
                        1 <= i <= an,
                        an == achars@.len(),
                        out@ == self.home_dir@ + achars@.subrange(1, i as int),
                    decreases an - i,
                {
                    out.push(achars[i]);
                    proof {
                        assert(out@ =~= self.home_dir@ + achars@.subrange(1, i + 1));
                    }
                    i = i + 1;
                }
                proof {
                    assert(achars@.subrange(1, an as int) =~= achars@.drop_first());
                }
                crate::token::chars_to_string(&out)
            } else if an > 0 && achars[0] == '/' {
                a.clone()
            } else {
                let mut out = crate::token::str_chars(self.current_dir.as_str());
                out.push('/');
                let mut rest = crate::token::str_chars(a.as_str());
                out.append(&mut rest);
                proof {
                    assert(out@ =~= self.current_dir@ + seq!['/'] + a@);
                }
                crate::token::chars_to_string(&out)
            }
        };
        Ok(normalize_path(cand.as_str()))
    }

    /// Commits a directory change the operating system accepted: the
    /// recorded current directory and the `PWD` variable both become the
    /// new path, and the exit status is zero. With the caller changing the
    /// process's working directory to the same path first, the record
    /// mirrors the actual working directory.
    pub fn commit_change_directory(&mut self, path: String)
        requires
            old(self).wf(),
        ensures
            final(self).wf(),
            final(self)@ == (ShellView {
                current_dir: path@,
                vars: old(self)@.vars.insert("PWD"@, path@),
                exit_status: 0,
                ..old(self)@
            }),
            final(self)@.current_dir == path@,
            final(self)@.vars["PWD"@] == path@,
    {
        self.current_dir = path.clone();
        map_set(&mut self.vars, crate::parser::copy_str("PWD"), path);
        self.exit_status = 0;
    }

    /// Records a directory change that failed: exit status one, nothing
    /// else touched.
    pub fn fail_change_directory(&mut self)
        requires
            old(self).wf(),
        ensures
            final(self).wf(),
            final(self)@ == (ShellView { exit_status: 1, ..old(self)@ }),
    {
        self.exit_status = 1;
    }
}

/// The variable table after startup seeding: the environment's pairs, with
/// `PWD`, `HOME` and `SHELL` overwritten.
pub open spec fn seed_map(
    env: Seq<(String, String)>,
    home: Seq<char>,
    shell_path: Seq<char>,
) -> Map<Seq<char>, Seq<char>> {
    pairs_map(env).insert("PWD"@, home).insert("HOME"@, home).insert("SHELL"@, shell_path)
}

} // verus!
