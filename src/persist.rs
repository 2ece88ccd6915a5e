use vstd::prelude::*;

use crate::input::Input;
use vstd::string::*;

use crate::text::{chars_of, string_from_chars};

verus! {

/// Which session is being edited: an unnamed scratch session, or a named
/// one that is kept between runs.
#[derive(Debug, PartialEq, Eq)]
pub enum SessionName {
    Scratch,
    Name(String),
}

/// Why a session could not be loaded.
#[derive(Clone, Copy, Debug, PartialEq, Eq, Structural)]
pub enum Error {
    /// The session name holds a character that cannot stand in a file name.
    InvalidName(char),
    /// The session file is not in the expected format.
    InvalidFormat(FormatError),
}

/// How a session file breaks the format: two lines, each a cursor position
/// and the field's text separated by a `:`.
#[derive(Clone, Copy, Debug, PartialEq, Eq, Structural)]
pub enum FormatError {
    Lines,
    Separator,
    Cursor,
}

/// The state of one editing session: its name and its two fields.
pub struct Session {
    pub name: SessionName,
    pub regex_query: Input,
    pub test_string: Input,
}

/// A character that a session name may not hold.
pub open spec fn is_invalid_name_char(c: char) -> bool {
    c == ' ' || c == '/' || c == '\\'
}

/// Index of the first occurrence of `c` in `s`, or the length of `s`.
pub open spec fn first_index(s: Seq<char>, c: char) -> nat
    decreases s.len(),
{
    if s.len() == 0 || s[0] == c {
        0
    } else {
        1 + first_index(s.drop_first(), c)
    }
}

/// Index of the first character of `s` that a session name may not hold, or
/// the length of `s`.
pub open spec fn first_invalid(s: Seq<char>) -> nat
    decreases s.len(),
{
    if s.len() == 0 || is_invalid_name_char(s[0]) {
        0
    } else {
        1 + first_invalid(s.drop_first())
    }
}

proof fn lemma_first_invalid(s: Seq<char>, k: int)
    requires
        0 <= k <= s.len(),
        forall|j: int| 0 <= j < k ==> !is_invalid_name_char(#[trigger] s[j]),
        k < s.len() ==> is_invalid_name_char(s[k]),
    ensures
        first_invalid(s) == k,
    decreases k,
{
    if k > 0 {
        assert forall|j: int| 0 <= j < k - 1 implies !is_invalid_name_char(
            #[trigger] s.drop_first()[j],
        ) by {
            assert(s.drop_first()[j] == s[j + 1]);
        }
        lemma_first_invalid(s.drop_first(), k - 1);
    }
}

proof fn lemma_first_index(s: Seq<char>, c: char, k: int)
    requires
        0 <= k <= s.len(),
        forall|j: int| 0 <= j < k ==> #[trigger] s[j] != c,
        k < s.len() ==> s[k] == c,
    ensures
        first_index(s, c) == k,
    decreases k,
{
    if k > 0 {
        assert forall|j: int| 0 <= j < k - 1 implies #[trigger] s.drop_first()[j] != c by {
            assert(s.drop_first()[j] == s[j + 1]);
        }
        lemma_first_index(s.drop_first(), c, k - 1);
    }
}

/// Checks that a session name holds no space, `/` or `\`, and names the
/// first such character otherwise.
pub fn validate_name(name: &str) -> (r: Result<(), Error>)
    ensures
        first_invalid(name@) < name@.len() ==> r == Err::<(), Error>(
            Error::InvalidName(name@[first_invalid(name@) as int]),
        ),
        first_invalid(name@) >= name@.len() ==> r is Ok,
{
    let chars = chars_of(name);
    let mut i: usize = 0;
    while i < chars.len()
        invariant
            chars@ == name@,
            i <= chars@.len(),
            forall|j: int| 0 <= j < i ==> !is_invalid_name_char(#[trigger] chars@[j]),
        decreases chars@.len() - i,
    {
        let c = chars[i];
        if c == ' ' || c == '/' || c == '\\' {
            proof {
                lemma_first_invalid(name@, i as int);
            }
            return Err(Error::InvalidName(c));
        }
        i = i + 1;
    }
    proof {
        lemma_first_invalid(name@, i as int);
    }
    Ok(())
}

/// The value of a run of decimal digits.
pub open spec fn digits_value(d: Seq<char>) -> nat
    decreases d.len(),
{
    if d.len() == 0 {
        0
    } else {
        digits_value(d.drop_last()) * 10 + (d.last() as nat - '0' as nat) as nat
    }
}

pub open spec fn is_digit(c: char) -> bool {
    '0' <= c && c <= '9'
}

pub open spec fn all_digits(d: Seq<char>) -> bool {
    forall|i: int| 0 <= i < d.len() ==> is_digit(#[trigger] d[i])
}

/// The text without a leading `+`.
pub open spec fn unsigned_part(s: Seq<char>) -> Seq<char> {
    if s.len() > 0 && s[0] == '+' {
        s.drop_first()
    } else {
        s
    }
}

/// A cursor position as text: an optional `+` and one or more decimal
/// digits whose value fits in a `usize`.
pub open spec fn parse_usize_spec(s: Seq<char>) -> Option<usize> {
    let d = unsigned_part(s);
    if d.len() > 0 && all_digits(d) && digits_value(d) <= usize::MAX {
        Some(digits_value(d) as usize)
    } else {
        None
    }
}

proof fn lemma_digits_monotone(d: Seq<char>, k: int)
    requires
        0 <= k <= d.len(),
        forall|i: int| 0 <= i < d.len() ==> is_digit(#[trigger] d[i]),
    ensures
        digits_value(d) >= digits_value(d.take(k)),
    decreases d.len() - k,
{
    if k < d.len() {
        let p = d.drop_last();
        assert forall|i: int| 0 <= i < p.len() implies is_digit(#[trigger] p[i]) by {
            assert(p[i] == d[i]);
        }
        lemma_digits_monotone(p, k);
        assert(p.take(k) =~= d.take(k));
    } else {
        assert(d.take(k) =~= d);
    }
}

/// Reads a cursor position.
pub fn parse_usize(s: &Vec<char>) -> (r: Option<usize>)
    ensures
        r == parse_usize_spec(s@),
{
    let start: usize = if s.len() > 0 && s[0] == '+' {
        1
    } else {
        0
    };
    let ghost d = unsigned_part(s@);
    assert(d =~= s@.skip(start as int));
    if start >= s.len() {
        return None;
    }
    let mut value: usize = 0;
    let mut i: usize = start;
    while i < s.len()
        invariant
            start <= i <= s@.len(),
            d == unsigned_part(s@),
            d =~= s@.skip(start as int),
            forall|j: int| 0 <= j < i - start ==> is_digit(#[trigger] d[j]),
            value == digits_value(d.take(i - start)),
        decreases s@.len() - i,
    {
        let c = s[i];
        if !('0' <= c && c <= '9') {
            assert(d[i - start] == c);
            assert(!is_digit(d[i - start]));
            assert(!all_digits(d));
            return None;
        }
        let digit = (c as u32 - '0' as u32) as usize;
        assert(d.take(i - start + 1).drop_last() =~= d.take(i - start));
        assert(d[i - start] == c);
        if value > (usize::MAX - digit) / 10 {
            proof {
                assert(value * 10 + digit > usize::MAX) by (nonlinear_arith)
                    requires
                        value > (usize::MAX - digit) / 10,
                        digit <= 9,
                ;
                let k = i - start + 1;
                assert(d.take(k).last() == c);
                assert(digits_value(d.take(k)) == value * 10 + digit);
                assert forall|j: int| 0 <= j < k implies is_digit(#[trigger] d.take(k)[j]) by {
                    assert(d.take(k)[j] == d[j]);
                }
                if all_digits(d) {
                    lemma_digits_monotone(d, k);
                }
            }
            return None;
        }
        proof {
            assert(value * 10 + digit <= usize::MAX) by (nonlinear_arith)
                requires
                    value <= (usize::MAX - digit) / 10,
                    digit <= 9,
            ;
        }
        value = value * 10 + digit;
        i = i + 1;
    }
    assert(d.take(i - start) =~= d);
    Some(value)
}

/// The field that one line of a session file stands for: its cursor
/// position, a `:`, and its text.
pub open spec fn parse_field_spec(s: Seq<char>) -> Result<(Seq<char>, usize), Error> {
    let i = first_index(s, ':');
    if i >= s.len() {
        Err(Error::InvalidFormat(FormatError::Separator))
    } else {
        match parse_usize_spec(s.take(i as int)) {
            Some(c) => Ok((s.skip(i + 1 as int), c)),
            None => Err(Error::InvalidFormat(FormatError::Cursor)),
        }
    }
}

/// Reads one line of a session file.
pub fn parse_field(s: &Vec<char>) -> (r: Result<Input, Error>)
    ensures
        match parse_field_spec(s@) {
            Ok((text, cursor)) => r matches Ok(input) && input.string@ == text && input.cursor
                == cursor,
            Err(e) => r == Err::<Input, Error>(e),
        },
{
    let mut i: usize = 0;
    while i < s.len() && s[i] != ':'
        invariant
            i <= s@.len(),
            forall|j: int| 0 <= j < i ==> #[trigger] s@[j] != ':',
        decreases s@.len() - i,
    {
        i = i + 1;
    }
    proof {
        lemma_first_index(s@, ':', i as int);
    }
    if i >= s.len() {
        return Err(Error::InvalidFormat(FormatError::Separator));
    }
    let mut head: Vec<char> = Vec::new();
    let mut j: usize = 0;
    while j < i
        invariant
            j <= i < s@.len(),
            head@ == s@.take(j as int),
        decreases i - j,
    {
        head.push(s[j]);
        j = j + 1;
        assert(head@ =~= s@.take(j as int));
    }
    let cursor = match parse_usize(&head) {
        Some(c) => c,
        None => return Err(Error::InvalidFormat(FormatError::Cursor)),
    };
    let mut tail: Vec<char> = Vec::new();
    let mut k: usize = i + 1;
    while k < s.len()
        invariant
            i < k <= s@.len(),
            tail@ == s@.subrange(i + 1, k as int),
        decreases s@.len() - k,
    {
        tail.push(s[k]);
        k = k + 1;
        assert(tail@ =~= s@.subrange(i + 1, k as int));
    }
    assert(tail@ =~= s@.skip(i + 1));
    Ok(Input { string: string_from_chars(&tail), cursor })
}

/// The two fields that the text of a session file stands for: exactly two
/// lines, the pattern field first.
pub open spec fn parse_session_spec(s: Seq<char>) -> Result<
    ((Seq<char>, usize), (Seq<char>, usize)),
    Error,
> {
    let i = first_index(s, '\n');
    if i >= s.len() || first_index(s.skip(i + 1 as int), '\n') < s.len() - i - 1 {
        Err(Error::InvalidFormat(FormatError::Lines))
    } else {
        match parse_field_spec(s.take(i as int)) {
            Err(e) => Err(e),
            Ok(a) => match parse_field_spec(s.skip(i + 1 as int)) {
                Err(e) => Err(e),
                Ok(b) => Ok((a, b)),
            },
        }
    }
}

/// Reads the text of a session file.
pub fn parse_session(s: &str) -> (r: Result<(Input, Input), Error>)
    ensures
        match parse_session_spec(s@) {
            Ok((a, b)) => r matches Ok((x, y)) && x.string@ == a.0 && x.cursor == a.1
                && y.string@ == b.0 && y.cursor == b.1,
            Err(e) => r == Err::<(Input, Input), Error>(e),
        },
{
    let chars = chars_of(s);
    let mut first: Vec<char> = Vec::new();
    let mut i: usize = 0;
    while i < chars.len() && chars[i] != '\n'
        invariant
            chars@ == s@,
            i <= chars@.len(),
            first@ == chars@.take(i as int),
            forall|j: int| 0 <= j < i ==> #[trigger] chars@[j] != '\n',
        decreases chars@.len() - i,
    {
        first.push(chars[i]);
        i = i + 1;
        assert(first@ =~= chars@.take(i as int));
    }
    proof {
        lemma_first_index(s@, '\n', i as int);
    }
    if i >= chars.len() {
        return Err(Error::InvalidFormat(FormatError::Lines));
    }
    let mut second: Vec<char> = Vec::new();
    let mut k: usize = i + 1;
    while k < chars.len()
        invariant
            chars@ == s@,
            i < k <= chars@.len(),
            first_index(s@, '\n') == i,
            second@ == chars@.subrange(i + 1, k as int),
            forall|j: int| i + 1 <= j < k ==> #[trigger] chars@[j] != '\n',
        decreases chars@.len() - k,
    {
        if chars[k] == '\n' {
            proof {
                let t = s@.skip(i + 1);
                assert forall|j: int| 0 <= j < k - i - 1 implies #[trigger] t[j] != '\n' by {
                    assert(t[j] == s@[j + i + 1]);
                    assert(chars@[j + i + 1] != '\n');
                }
                assert(t[k - i - 1] == chars@[k as int]);
                lemma_first_index(t, '\n', k - i - 1);
            }
            return Err(Error::InvalidFormat(FormatError::Lines));
        }
        second.push(chars[k]);
        k = k + 1;
        assert(second@ =~= chars@.subrange(i + 1, k as int));
    }
    proof {
        let t = s@.skip(i + 1);
        assert forall|j: int| 0 <= j < t.len() implies #[trigger] t[j] != '\n' by {
            assert(t[j] == s@[j + i + 1]);
        }
        lemma_first_index(t, '\n', t.len() as int);
        assert(second@ =~= t);
    }
    let a = parse_field(&first)?;
    let b = parse_field(&second)?;
    Ok((a, b))
}

/// The decimal digit of a value below ten.
pub open spec fn digit_char(d: nat) -> char {
    if d == 0 {
        '0'
    } else if d == 1 {
        '1'
    } else if d == 2 {
        '2'
    } else if d == 3 {
        '3'
    } else if d == 4 {
        '4'
    } else if d == 5 {
        '5'
    } else if d == 6 {
        '6'
    } else if d == 7 {
        '7'
    } else if d == 8 {
        '8'
    } else {
        '9'
    }
}

/// A number written in decimal, without leading zeros.
pub open spec fn decimal(n: nat) -> Seq<char>
    decreases n,
{
    if n < 10 {
        seq![digit_char(n)]
    } else {
        decimal(n / 10).push(digit_char(n % 10))
    }
}

fn digit(d: usize) -> (c: char)
    requires
        d < 10,
    ensures
        c == digit_char(d as nat),
{
    if d == 0 {
        '0'
    } else if d == 1 {
        '1'
    } else if d == 2 {
        '2'
    } else if d == 3 {
        '3'
    } else if d == 4 {
        '4'
    } else if d == 5 {
        '5'
    } else if d == 6 {
        '6'
    } else if d == 7 {
        '7'
    } else if d == 8 {
        '8'
    } else {
        '9'
    }
}

/// Writes a number in decimal.
pub fn decimal_chars(n: usize) -> (r: Vec<char>)
    ensures
        r@ == decimal(n as nat),
    decreases n,
{
    if n < 10 {
        vec![digit(n)]
    } else {
        let mut v = decimal_chars(n / 10);
        v.push(digit(n % 10));
        v
    }
}

/// The text of a session file for two fields: each field's cursor, a `:`
/// and its text, the pattern field on the first line.
pub open spec fn session_text(q: Input, t: Input) -> Seq<char> {
    decimal(q.cursor as nat) + seq![':'] + q.string@ + seq!['\n'] + decimal(t.cursor as nat)
        + seq![':'] + t.string@
}

proof fn lemma_decimal_digits(n: nat)
    ensures
        decimal(n).len() > 0,
        all_digits(decimal(n)),
        digits_value(decimal(n)) == n,
    decreases n,
{
    if n >= 10 {
        lemma_decimal_digits(n / 10);
        let d = decimal(n);
        assert(d.drop_last() =~= decimal(n / 10));
        assert forall|i: int| 0 <= i < d.len() implies is_digit(#[trigger] d[i]) by {
            if i < d.len() - 1 {
                assert(d[i] == decimal(n / 10)[i]);
            }
        }
        assert(digit_char(n % 10) as nat - '0' as nat == n % 10);
        assert(d.last() == digit_char(n % 10));
        assert(n == (n / 10) * 10 + n % 10) by (nonlinear_arith);
        assert(digits_value(d) == digits_value(d.drop_last()) * 10 + (d.last() as nat - '0' as nat) as nat);
    } else {
        assert(digit_char(n) as nat - '0' as nat == n);
        assert(decimal(n).drop_last() =~= Seq::<char>::empty());
        assert(digits_value(decimal(n).drop_last()) == 0);
    }
}

proof fn lemma_first_index_after(a: Seq<char>, c: char, b: Seq<char>)
    requires
        forall|i: int| 0 <= i < a.len() ==> #[trigger] a[i] != c,
    ensures
        first_index(a + seq![c] + b, c) == a.len(),
        (a + seq![c] + b).take(a.len() as int) == a,
        (a + seq![c] + b).skip(a.len() + 1 as int) == b,
{
    let s = a + seq![c] + b;
    assert forall|j: int| 0 <= j < a.len() implies #[trigger] s[j] != c by {
        assert(s[j] == a[j]);
    }
    assert(s[a.len() as int] == c);
    lemma_first_index(s, c, a.len() as int);
    assert(s.take(a.len() as int) =~= a);
    assert(s.skip(a.len() + 1 as int) =~= b);
}

proof fn lemma_field_round_trip(f: Input)
    requires
        !f.string@.contains('\n'),
    ensures
        parse_field_spec(decimal(f.cursor as nat) + seq![':'] + f.string@) == Ok::<
            (Seq<char>, usize),
            Error,
        >((f.string@, f.cursor)),
        !(decimal(f.cursor as nat) + seq![':'] + f.string@).contains('\n'),
{
    let d = decimal(f.cursor as nat);
    lemma_decimal_digits(f.cursor as nat);
    lemma_first_index_after(d, ':', f.string@);
    assert(unsigned_part(d) == d);
    let line = d + seq![':'] + f.string@;
    assert forall|i: int| 0 <= i < line.len() implies line[i] != '\n' by {
        if i < d.len() {
            assert(is_digit(d[i]));
        } else if i > d.len() {
            assert(line[i] == f.string@[i - d.len() - 1]);
        }
    }
}

/// Reading back the text saved for two fields gives the fields again, when
/// neither field's text holds a line feed.
pub proof fn lemma_session_text_round_trip(q: Input, t: Input)
    requires
        !q.string@.contains('\n'),
        !t.string@.contains('\n'),
    ensures
        parse_session_spec(session_text(q, t)) == Ok::<
            ((Seq<char>, usize), (Seq<char>, usize)),
            Error,
        >(((q.string@, q.cursor), (t.string@, t.cursor))),
{
    lemma_field_round_trip(q);
    lemma_field_round_trip(t);
    let l1 = decimal(q.cursor as nat) + seq![':'] + q.string@;
    let l2 = decimal(t.cursor as nat) + seq![':'] + t.string@;
    assert(session_text(q, t) =~= l1 + seq!['\n'] + l2);
    assert forall|i: int| 0 <= i < l1.len() implies #[trigger] l1[i] != '\n' by {
        assert(!l1.contains('\n'));
    }
    lemma_first_index_after(l1, '\n', l2);
    assert forall|i: int| 0 <= i < l2.len() implies #[trigger] l2[i] != '\n' by {
        assert(!l2.contains('\n'));
    }
    lemma_first_index(l2, '\n', l2.len() as int);
}

/// What saving a session does to its file.
#[derive(Debug, PartialEq, Eq)]
pub enum SaveAction {
    /// A scratch session keeps no file.
    Skip,
    /// A named session with both fields empty keeps no file: any earlier one goes.
    Remove(String),
    /// A named session is written to its file.
    Write(String, String),
}

impl SessionName {
    /// The title line of the session: its name, or `<scratch>`, between dashes.
    pub fn title(&self) -> (r: String)
        ensures
            r@ == "--- "@ + match self {
                SessionName::Name(n) => n@,
                SessionName::Scratch => "<scratch>"@,
            } + " ---"@,
    {
        let mut out = String::from_str("--- ");
        match self {
            SessionName::Name(n) => out.append(n.as_str()),
            SessionName::Scratch => out.append("<scratch>"),
        }
        out.append(" ---");
        out
    }
}

impl Session {
    /// What saving the session does: nothing for a scratch session; for a
    /// named one, remove its file when both fields are empty, else write the
    /// fields to it.
    pub fn save_action(&self) -> (r: SaveAction)
        ensures
            match self.name {
                SessionName::Scratch => r == SaveAction::Skip,
                SessionName::Name(n) => if self.regex_query.string@.len() == 0
                    && self.test_string.string@.len() == 0 {
                    r matches SaveAction::Remove(m) && m@ == n@
                } else {
                    r matches SaveAction::Write(m, text) && m@ == n@ && text@ == session_text(
                        self.regex_query,
                        self.test_string,
                    )
                },
            },
    {
        match &self.name {
            SessionName::Scratch => SaveAction::Skip,
            SessionName::Name(n) => {
                if self.regex_query.string.as_str().is_empty()
                    && self.test_string.string.as_str().is_empty() {
                    SaveAction::Remove(n.clone())
                } else {
                    let mut text = decimal_chars(self.regex_query.cursor);
                    text.push(':');
                    let q = chars_of(self.regex_query.string.as_str());
                    let mut i: usize = 0;
                    let ghost base = text@;
                    while i < q.len()
                        invariant
                            i <= q@.len(),
                            text@ == base + q@.take(i as int),
                        decreases q@.len() - i,
                    {
                        text.push(q[i]);
                        i = i + 1;
                        assert(text@ =~= base + q@.take(i as int));
                    }
                    text.push('\n');
                    let mut d = decimal_chars(self.test_string.cursor);
                    text.append(&mut d);
                    text.push(':');
                    let t = chars_of(self.test_string.string.as_str());
                    let mut j: usize = 0;
                    let ghost base2 = text@;
                    while j < t.len()
                        invariant
                            j <= t@.len(),
                            text@ == base2 + t@.take(j as int),
                        decreases t@.len() - j,
                    {
                        text.push(t[j]);
                        j = j + 1;
                        assert(text@ =~= base2 + t@.take(j as int));
                    }
                    assert(q@.take(i as int) =~= q@);
                    assert(t@.take(j as int) =~= t@);
                    assert(text@ =~= session_text(self.regex_query, self.test_string));
                    SaveAction::Write(n.clone(), string_from_chars(&text))
                }
            },
        }
    }

    /// The named session whose file holds `contents`; a session whose file
    /// could not be read (`None`) starts blank.
    pub fn fetch(name: String, contents: Option<&str>) -> (r: Result<Self, Error>)
        ensures
            first_invalid(name@) < name@.len() ==> r == Err::<Session, Error>(
                Error::InvalidName(name@[first_invalid(name@) as int]),
            ),
            first_invalid(name@) >= name@.len() ==> match contents {
                None => r matches Ok(s) && s.name == SessionName::Name(name)
                    && s.regex_query.string@.len() == 0 && s.regex_query.cursor == 0
                    && s.test_string.string@.len() == 0 && s.test_string.cursor == 0,
                Some(text) => match parse_session_spec(text@) {
                    Ok((a, b)) => r matches Ok(s) && s.name == SessionName::Name(name)
                        && s.regex_query.string@ == a.0 && s.regex_query.cursor == a.1
                        && s.test_string.string@ == b.0 && s.test_string.cursor == b.1,
                    Err(e) => r == Err::<Session, Error>(e),
                },
            },
    {
        validate_name(name.as_str())?;
        let (regex_query, test_string) = match contents {
            Some(text) => parse_session(text)?,
            None => (Input::default(), Input::default()),
        };
        Ok(Session { name: SessionName::Name(name), regex_query, test_string })
    }

    /// An unnamed session with both fields empty.
    pub fn scratch() -> (r: Self)
        ensures
            r.name == SessionName::Scratch,
            r.regex_query.string@.len() == 0 && r.regex_query.cursor == 0,
            r.test_string.string@.len() == 0 && r.test_string.cursor == 0,
    {
        Session {
            name: SessionName::Scratch,
            regex_query: Input::default(),
            test_string: Input::default(),
        }
    }
}

} // verus!
