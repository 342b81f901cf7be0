use vstd::prelude::*;

verus! {

/// True for the ASCII decimal digits.
pub open spec fn is_digit(c: char) -> bool {
    '0' <= c && c <= '9'
}

/// Length of the longest prefix of `s` made of digits.
pub open spec fn digit_run_len(s: Seq<char>) -> nat
    decreases s.len(),
{
    if s.len() > 0 && is_digit(s[0]) {
        1 + digit_run_len(s.drop_first())
    } else {
        0
    }
}

/// Length of the longest prefix of `s` without a line feed.
pub open spec fn line_len(s: Seq<char>) -> nat
    decreases s.len(),
{
    if s.len() > 0 && s[0] != '\n' {
        1 + line_len(s.drop_first())
    } else {
        0
    }
}

/// Decimal value of a sequence of digits.
pub open spec fn digits_value(s: Seq<char>) -> nat
    decreases s.len(),
{
    if s.len() == 0 {
        0
    } else {
        (digits_value(s.drop_last()) * 10 + (s.last() as int - '0' as int)) as nat
    }
}

/// The registered and dynamic ports.
pub open spec fn in_port_range(v: nat) -> bool {
    1024 <= v && v <= 65535
}

/// A maximal run of digits starts at `i`.
pub open spec fn starts_token(s: Seq<char>, i: int) -> bool {
    0 <= i < s.len() && is_digit(s[i]) && (i == 0 || !is_digit(s[i - 1]))
}

/// The maximal run of digits that starts at `i`.
pub open spec fn token_at(s: Seq<char>, i: int) -> Seq<char> {
    s.subrange(i, i + digit_run_len(s.skip(i)))
}

/// Value of the first digit run at or after `i` whose value is a port.
pub open spec fn first_port_token_from(s: Seq<char>, i: int) -> Option<u16>
    decreases s.len() - i,
{
    if i < 0 || i >= s.len() {
        None
    } else if starts_token(s, i) && in_port_range(digits_value(token_at(s, i))) {
        Some(digits_value(token_at(s, i)) as u16)
    } else {
        first_port_token_from(s, i + 1)
    }
}

/// The first digit run of `line` whose value is a port.
pub open spec fn first_port_token(line: Seq<char>) -> Option<u16> {
    first_port_token_from(line, 0)
}

/// `w` occurs in `s` at `i`.
pub open spec fn occurs_at(s: Seq<char>, w: Seq<char>, i: int) -> bool {
    0 <= i && i + w.len() <= s.len() && s.subrange(i, i + w.len()) == w
}

pub open spec fn contains_word(s: Seq<char>, w: Seq<char>) -> bool {
    exists|i: int| occurs_at(s, w, i)
}

/// The line mentions the port keyword, in lower or in upper case.
pub open spec fn mentions_port(line: Seq<char>) -> bool {
    contains_word(line, seq!['p', 'o', 'r', 't']) || contains_word(line, seq!['P', 'O', 'R', 'T'])
}

/// The port that one line yields.
pub open spec fn port_of_line(line: Seq<char>) -> Option<u16> {
    if mentions_port(line) {
        first_port_token(line)
    } else {
        None
    }
}

/// A line of the text starts at `i`.
pub open spec fn starts_line(s: Seq<char>, i: int) -> bool {
    0 <= i < s.len() && (i == 0 || s[i - 1] == '\n')
}

/// The line that starts at `i`, without its line feed.
pub open spec fn line_at(s: Seq<char>, i: int) -> Seq<char> {
    s.subrange(i, i + line_len(s.skip(i)))
}

/// The port of the first line at or after `i` that yields one.
pub open spec fn port_in_text_from(s: Seq<char>, i: int) -> Option<u16>
    decreases s.len() - i,
{
    if i < 0 || i >= s.len() {
        None
    } else if starts_line(s, i) && port_of_line(line_at(s, i)) is Some {
        port_of_line(line_at(s, i))
    } else {
        port_in_text_from(s, i + 1)
    }
}

/// The port that a configuration text yields: that of its first line that
/// mentions the keyword and holds a digit run in the port range.
pub open spec fn port_in_text(s: Seq<char>) -> Option<u16> {
    port_in_text_from(s, 0)
}

proof fn lemma_digit_run_len(s: Seq<char>, k: int)
    requires
        0 <= k <= s.len(),
        forall|j: int| 0 <= j < k ==> is_digit(s[j]),
        k == s.len() || !is_digit(s[k]),
    ensures
        digit_run_len(s) == k,
    decreases k,
{
    if k > 0 {
        lemma_digit_run_len(s.drop_first(), k - 1);
    }
}

proof fn lemma_line_len(s: Seq<char>, k: int)
    requires
        0 <= k <= s.len(),
        forall|j: int| 0 <= j < k ==> s[j] != '\n',
        k == s.len() || s[k] == '\n',
    ensures
        line_len(s) == k,
    decreases k,
{
    if k > 0 {
        lemma_line_len(s.drop_first(), k - 1);
    }
}

/// Collects the characters of a text.
fn chars_of(text: &str) -> (r: Vec<char>)
    ensures
        r@ == text@,
{
    let mut r: Vec<char> = Vec::new();
    for c in it: text.chars()
        invariant
            it.seq() == text@,
            r@ == it.seq().take(it.index() as int),
    {
        r.push(c);
    }
    r
}


fn char_is_digit(c: char) -> (r: bool)
    ensures
        r == is_digit(c),
{
    '0' <= c && c <= '9'
}

/// Reads the digit run of `s` that starts at `i`: where it ends, and its
/// value, or 65536 where the value lies above every port.
fn scan_digits(s: &Vec<char>, i: usize) -> (r: (usize, u32))
    requires
        i < s.len(),
    ensures
        i <= r.0 <= s.len(),
        r.0 - i == digit_run_len(s@.skip(i as int)),
        r.1 == if digits_value(s@.subrange(i as int, r.0 as int)) > 65535 {
            65536
        } else {
            digits_value(s@.subrange(i as int, r.0 as int))
        },
{
    let mut j: usize = i;
    let mut v: u32 = 0;
    assert(s@.subrange(i as int, i as int) =~= Seq::<char>::empty());
    while j < s.len() && char_is_digit(s[j])
        invariant
            i <= j <= s.len(),
            forall|m: int| i <= m < j ==> is_digit(s@[m]),
            v == if digits_value(s@.subrange(i as int, j as int)) > 65535 {
                65536
            } else {
                digits_value(s@.subrange(i as int, j as int))
            },
        decreases s.len() - j,
    {
        let ghost old_value = digits_value(s@.subrange(i as int, j as int));
        let d: u32 = (s[j] as u32) - ('0' as u32);
        assert(s@.subrange(i as int, j + 1).drop_last() =~= s@.subrange(i as int, j as int));
        assert(digits_value(s@.subrange(i as int, j + 1)) == old_value * 10 + d);
        if v > 65535 {
            v = 65536;
        } else {
            let w: u32 = v * 10 + d;
            v = if w > 65535 { 65536 } else { w };
        }
        j = j + 1;
    }
    proof {
        lemma_digit_run_len(s@.skip(i as int), j - i);
    }
    (j, v)
}

/// The first digit run of `s` whose value is a port.
fn first_port_in(s: &Vec<char>) -> (r: Option<u16>)
    ensures
        r == first_port_token(s@),
{
    let mut i: usize = 0;
    while i < s.len()
        invariant
            i <= s.len(),
            first_port_token_from(s@, 0) == first_port_token_from(s@, i as int),
        decreases s.len() - i,
    {
        if char_is_digit(s[i]) && (i == 0 || !char_is_digit(s[i - 1])) {
            let (end, v) = scan_digits(s, i);
            assert(token_at(s@, i as int) == s@.subrange(i as int, end as int));
            if 1024 <= v && v <= 65535 {
                return Some(v as u16);
            }
        }
        i = i + 1;
    }
    None
}

/// Whether `w` occurs in `s`.
fn occurs_in(s: &Vec<char>, w: &Vec<char>) -> (r: bool)
    ensures
        r == contains_word(s@, w@),
{
    let mut i: usize = 0;
    while i <= s.len() && w.len() <= s.len() - i
        invariant
            forall|j: int| 0 <= j < i ==> !occurs_at(s@, w@, j),
        decreases s.len() + 1 - i,
    {
        let mut k: usize = 0;
        while k < w.len() && s[i + k] == w[k]
            invariant
                k <= w.len(),
                i + w.len() <= s.len(),
                forall|m: int| 0 <= m < k ==> s@[i + m] == w@[m],
            decreases w.len() - k,
        {
            k = k + 1;
        }
        if k == w.len() {
            assert(s@.subrange(i as int, i + w.len()) =~= w@);
            assert(occurs_at(s@, w@, i as int));
            return true;
        }
        assert(s@.subrange(i as int, i + w.len())[k as int] != w@[k as int]);
        i = i + 1;
    }
    assert forall|j: int| !occurs_at(s@, w@, j) by {
        if 0 <= j && j >= i {
            assert(j + w.len() > s.len());
        }
    }
    false
}

/// The port that one line yields.
fn port_of_line_exec(line: &Vec<char>) -> (r: Option<u16>)
    ensures
        r == port_of_line(line@),
{
    let lower: Vec<char> = vec!['p', 'o', 'r', 't'];
    let upper: Vec<char> = vec!['P', 'O', 'R', 'T'];
    assert(lower@ =~= seq!['p', 'o', 'r', 't']);
    assert(upper@ =~= seq!['P', 'O', 'R', 'T']);
    if occurs_in(line, &lower) || occurs_in(line, &upper) {
        first_port_in(line)
    } else {
        None
    }
}


proof fn lemma_token_port_in_range(s: Seq<char>, i: int)
    requires
        first_port_token_from(s, i) is Some,
    ensures
        1024 <= first_port_token_from(s, i)->0,
    decreases s.len() - i,
{
    if 0 <= i < s.len() && !(starts_token(s, i) && in_port_range(digits_value(token_at(s, i)))) {
        lemma_token_port_in_range(s, i + 1);
    }
}

proof fn lemma_text_port_in_range(s: Seq<char>, i: int)
    requires
        port_in_text_from(s, i) is Some,
    ensures
        1024 <= port_in_text_from(s, i)->0,
    decreases s.len() - i,
{
    if 0 <= i < s.len() {
        if starts_line(s, i) && port_of_line(line_at(s, i)) is Some {
            lemma_token_port_in_range(line_at(s, i), 0);
        } else {
            lemma_text_port_in_range(s, i + 1);
        }
    }
}

/// The port that a configuration text names: on the first line that mentions
/// `port` or `PORT` and holds a digit run in the port range, the first such run.
pub fn extract_port(content: &str) -> (r: Option<u16>)
    ensures
        r == port_in_text(content@),
        r matches Some(p) ==> 1024 <= p,
{
    let s = chars_of(content);
    let mut i: usize = 0;
    while i < s.len()
        invariant
            s@ == content@,
            i <= s.len(),
            port_in_text_from(s@, 0) == port_in_text_from(s@, i as int),
        decreases s.len() - i,
    {
        if i == 0 || s[i - 1] == '\n' {
            let mut line: Vec<char> = Vec::new();
            let mut j: usize = i;
            while j < s.len() && s[j] != '\n'
                invariant
                    i <= j <= s.len(),
                    line@ == s@.subrange(i as int, j as int),
                    forall|m: int| i <= m < j ==> s@[m] != '\n',
                decreases s.len() - j,
            {
                line.push(s[j]);
                j = j + 1;
            }
            proof {
                lemma_line_len(s@.skip(i as int), j - i);
            }
            assert(line@ == line_at(s@, i as int));
            let found = port_of_line_exec(&line);
            if found.is_some() {
                proof {
                    lemma_text_port_in_range(s@, 0);
                }
                return found;
            }
        }
        i = i + 1;
    }
    None
}

/// The two kinds of service that a project holds.
#[derive(Clone, Copy, Debug, PartialEq, Eq, Structural)]
pub enum Side {
    Frontend,
    Backend,
}

/// The port a side's dev server uses when no configuration names one.
pub open spec fn default_port_of(side: Side) -> u16 {
    match side {
        Side::Frontend => 5190,
        Side::Backend => 8000,
    }
}

pub fn default_port(side: Side) -> (r: u16)
    ensures
        r == default_port_of(side),
{
    match side {
        Side::Frontend => 5190,
        Side::Backend => 8000,
    }
}

/// The configuration files, inside a side's directory, that may name its
/// port, in the order in which they are consulted.
pub open spec fn config_names_of(side: Side) -> Seq<Seq<char>> {
    match side {
        Side::Frontend => seq!["vite.config.ts"@, "vite.config.js"@],
        Side::Backend => seq![".env"@],
    }
}

pub fn config_file_names(side: Side) -> (r: Vec<&'static str>)
    ensures
        r@.map_values(|n: &str| n@) == config_names_of(side),
{
    let r = match side {
        Side::Frontend => vec!["vite.config.ts", "vite.config.js"],
        Side::Backend => vec![".env"],
    };
    assert(r@.map_values(|n: &str| n@) =~= config_names_of(side));
    r
}

/// The port of the first text that yields one.
pub open spec fn first_text_port(texts: Seq<String>) -> Option<u16>
    decreases texts.len(),
{
    if texts.len() == 0 {
        None
    } else if port_in_text(texts[0]@) is Some {
        port_in_text(texts[0]@)
    } else {
        first_text_port(texts.drop_first())
    }
}

/// The port of a side, from the texts of those of its configuration files
/// that could be read, in the order of `config_file_names`.
pub open spec fn port_of_configs(side: Side, texts: Seq<String>) -> u16 {
    match first_text_port(texts) {
        Some(p) => p,
        None => default_port_of(side),
    }
}

/// The port of a side's dev server: the first that its configuration texts
/// name, else the side's default. Always a port.
pub fn detect_port(side: Side, configs: &Vec<String>) -> (r: Option<u16>)
    ensures
        r == Some(port_of_configs(side, configs@)),
{
    let mut i: usize = 0;
    assert(configs@.skip(0) =~= configs@);
    while i < configs.len()
        invariant
            i <= configs.len(),
            first_text_port(configs@) == first_text_port(configs@.skip(i as int)),
        decreases configs.len() - i,
    {
        assert(configs@.skip(i as int).drop_first() =~= configs@.skip(i + 1));
        let found = extract_port(configs[i].as_str());
        if found.is_some() {
            return found;
        }
        i = i + 1;
    }
    Some(default_port(side))
}

proof fn lemma_line_len_bound(s: Seq<char>)
    ensures
        line_len(s) <= s.len(),
    decreases s.len(),
{
    if s.len() > 0 {
        lemma_line_len_bound(s.drop_first());
    }
}

proof fn lemma_shift_lines(line: Seq<char>, rest: Seq<char>, k: int)
    requires
        0 <= k <= rest.len(),
    ensures
        port_in_text_from(line + seq!['\n'] + rest, line.len() + 1 + k as int) == port_in_text_from(
            rest,
            k,
        ),
    decreases rest.len() - k,
{
    let s = line + seq!['\n'] + rest;
    let i = line.len() + 1 + k;
    if k < rest.len() {
        lemma_shift_lines(line, rest, k + 1);
        assert(s.skip(i) =~= rest.skip(k));
        let n = line_len(rest.skip(k));
        lemma_line_len_bound(rest.skip(k));
        assert(s.subrange(i, i + n) =~= rest.subrange(k, k + n));
        assert(starts_line(s, i) == starts_line(rest, k));
    }
}

proof fn lemma_inside_line(line: Seq<char>, rest: Seq<char>, j: int)
    requires
        1 <= j <= line.len() + 1,
        forall|m: int| 0 <= m < line.len() ==> line[m] != '\n',
    ensures
        port_in_text_from(line + seq!['\n'] + rest, j) == port_in_text_from(
            line + seq!['\n'] + rest,
            line.len() + 1 as int,
        ),
    decreases line.len() + 1 - j,
{
    let s = line + seq!['\n'] + rest;
    if j <= line.len() {
        assert(s[j - 1] == line[j - 1]);
        lemma_inside_line(line, rest, j + 1);
    }
}

/// A line that yields no port (no keyword, or no digit run in the port
/// range, such as `port: 80`) is passed over: the text's port is that of
/// the lines after it.
pub proof fn lemma_line_without_port_skipped(line: Seq<char>, rest: Seq<char>)
    requires
        forall|m: int| 0 <= m < line.len() ==> line[m] != '\n',
        port_of_line(line) is None,
    ensures
        port_in_text(line + seq!['\n'] + rest) == port_in_text(rest),
{
    let s = line + seq!['\n'] + rest;
    lemma_line_len(s, line.len() as int);
    assert(s.skip(0) =~= s);
    assert(s.subrange(0, line.len() as int) =~= line);
    lemma_inside_line(line, rest, 1);
    lemma_shift_lines(line, rest, 0);
}

} // verus!
