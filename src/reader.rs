use std::rc::Rc;
use vstd::prelude::*;
use vstd::string::StrSliceExecFns;
use crate::compiler::str_eq;
use crate::object::{Object, Val};

verus! {

/// A class of characters that the reader reads or skips a run of.
#[derive(Debug, Clone, Copy, PartialEq, Eq, Structural)]
pub enum CharClass {
    /// `0` to `9`.
    Digit,
    /// Unicode white space.
    Whitespace,
    /// Anything a symbol can hold: not white space, not a parenthesis, a
    /// quote, a double quote or a comma.
    SymbolChar,
}

/// Whether a character is Unicode white space (the `White_Space` property).
pub open spec fn is_ws(c: char) -> bool {
    ('\t' <= c && c <= '\r') || c == ' ' || c == '\u{85}' || c == '\u{a0}' || c == '\u{1680}' || (
    '\u{2000}' <= c && c <= '\u{200a}') || c == '\u{2028}' || c == '\u{2029}' || c == '\u{202f}'
        || c == '\u{205f}' || c == '\u{3000}'
}

/// Whether a character is a decimal digit.
pub open spec fn is_digit(c: char) -> bool {
    '0' <= c && c <= '9'
}

/// Whether a character can stand in a symbol.
pub open spec fn is_symbol_char(c: char) -> bool {
    !is_ws(c) && c != '(' && c != ')' && c != '\'' && c != '"' && c != ','
}

/// Whether a character is in a class.
pub open spec fn in_class(class: CharClass, c: char) -> bool {
    match class {
        CharClass::Digit => is_digit(c),
        CharClass::Whitespace => is_ws(c),
        CharClass::SymbolChar => is_symbol_char(c),
    }
}

/// The end of the run of characters of a class that starts at `i`.
pub open spec fn scan(s: Seq<char>, i: nat, class: CharClass) -> nat
    decreases s.len() - i,
{
    if i < s.len() && in_class(class, s[i as int]) {
        scan(s, i + 1, class)
    } else {
        i
    }
}

/// The value of a string of decimal digits.
pub open spec fn digits_value(s: Seq<char>) -> int
    decreases s.len(),
{
    if s.len() == 0 {
        0
    } else {
        digits_value(s.drop_last()) * 10 + (s.last() as int - '0' as int)
    }
}

/// What a symbol token reads as: `t`, `nil`, or a symbol.
pub open spec fn symbol_val(name: Seq<char>) -> Val {
    if name == "t"@ {
        Val::T
    } else if name == "nil"@ {
        Val::Nil
    } else {
        Val::Sym(name)
    }
}

/// Where the digits of a token start: after a leading `-`, if any.
pub open spec fn digits_start(t: Seq<char>) -> nat {
    if t.len() > 0 && t[0] == '-' {
        1
    } else {
        0
    }
}

/// Whether a token is an integer literal: an optional `-`, then one or more
/// digits.
pub open spec fn is_int_literal(t: Seq<char>) -> bool {
    t.len() > digits_start(t) && forall|x: int| digits_start(t) <= x < t.len() ==> is_digit(#[trigger] t[x])
}

/// What a token reads as: an integer literal as its value, which must fit in
/// 32 bits (nothing otherwise); any other token as `t`, `nil` or a symbol.
pub open spec fn token_val(t: Seq<char>) -> Option<Val> {
    if is_int_literal(t) {
        let v = digits_value(t.subrange(digits_start(t) as int, t.len() as int));
        let n = if digits_start(t) == 1 {
            -v
        } else {
            v
        };
        if i32::MIN <= n <= i32::MAX {
            Some(Val::Num(n as i32))
        } else {
            None
        }
    } else {
        Some(symbol_val(t))
    }
}

/// The expression that starts at `i`, after white space, and the position
/// after it; nothing where none can be read.
pub open spec fn parse_expr(s: Seq<char>, i: nat) -> Option<(Val, nat)>
    decreases s.len() - i, 0nat,
{
    let j = scan(s, i, CharClass::Whitespace);
    if j < i || j >= s.len() {
        None
    } else if s[j as int] == '(' {
        parse_items(s, j + 1)
    } else if is_symbol_char(s[j as int]) {
        let k = scan(s, j, CharClass::SymbolChar);
        match token_val(s.subrange(j as int, k as int)) {
            Some(v) => Some((v, k)),
            None => None,
        }
    } else {
        None
    }
}

/// The rest of a list from `i` up to and including its `)`, as the chain
/// of pairs that the items make, and the position after the `)`.
pub open spec fn parse_items(s: Seq<char>, i: nat) -> Option<(Val, nat)>
    decreases s.len() - i, 1nat,
{
    let j = scan(s, i, CharClass::Whitespace);
    if j < i || j >= s.len() {
        None
    } else if s[j as int] == ')' {
        Some((Val::Nil, j + 1))
    } else {
        match parse_expr(s, j) {
            Some((v, k)) => if k <= j || k > s.len() {
                None
            } else {
                match parse_items(s, k) {
                    Some((t, m)) => Some((Val::Pair(Box::new(v), Box::new(t)), m)),
                    None => None,
                }
            },
            None => None,
        }
    }
}

/// The list of the values of `items` in front of `tail`.
pub open spec fn prepend(items: Seq<Object>, tail: Val) -> Val
    decreases items.len(),
{
    if items.len() == 0 {
        tail
    } else {
        prepend(items.drop_last(), Val::Pair(Box::new(items.last()@), Box::new(tail)))
    }
}

/// A run of a class ends at or after where it starts, and within the text.
pub proof fn lemma_scan_bounds(s: Seq<char>, i: nat, class: CharClass)
    requires
        i <= s.len(),
    ensures
        i <= scan(s, i, class) <= s.len(),
        scan(s, i, class) < s.len() ==> !in_class(class, s[scan(s, i, class) as int]),
        forall|x: int| i <= x < scan(s, i, class) ==> in_class(class, #[trigger] s[x]),
    decreases s.len() - i,
{
    if i < s.len() && in_class(class, s[i as int]) {
        lemma_scan_bounds(s, i + 1, class);
    }
}

/// The digits of a number are worth at least any prefix of them, and
/// nothing negative.
pub proof fn lemma_digits_value_prefix(s: Seq<char>, m: nat)
    requires
        m <= s.len(),
        forall|x: int| 0 <= x < s.len() ==> is_digit(#[trigger] s[x]),
    ensures
        0 <= digits_value(s.take(m as int)) <= digits_value(s),
    decreases s.len(),
{
    if m < s.len() {
        let p = s.drop_last();
        assert forall|x: int| 0 <= x < p.len() implies is_digit(#[trigger] p[x]) by {
            assert(p[x] == s[x]);
        }
        lemma_digits_value_prefix(p, m);
        assert(p.take(m as int) =~= s.take(m as int));
        lemma_digits_value_prefix(p, p.len());
        assert(p.take(p.len() as int) =~= p);
    } else {
        assert(s.take(m as int) =~= s);
        lemma_digits_value_nonneg(s);
    }
}

/// The value of a string of digits is not negative.
pub proof fn lemma_digits_value_nonneg(s: Seq<char>)
    requires
        forall|x: int| 0 <= x < s.len() ==> is_digit(#[trigger] s[x]),
    ensures
        digits_value(s) >= 0,
    decreases s.len(),
{
    if s.len() > 0 {
        let p = s.drop_last();
        assert forall|x: int| 0 <= x < p.len() implies is_digit(#[trigger] p[x]) by {
            assert(p[x] == s[x]);
        }
        lemma_digits_value_nonneg(p);
    }
}

impl CharClass {
    /// Whether `c` is in the class.
    pub fn contains(&self, c: char) -> (r: bool)
        ensures
            r == in_class(*self, c),
    {
        let ws = ('\t' <= c && c <= '\r') || c == ' ' || c == '\u{85}' || c == '\u{a0}' || c
            == '\u{1680}' || ('\u{2000}' <= c && c <= '\u{200a}') || c == '\u{2028}' || c
            == '\u{2029}' || c == '\u{202f}' || c == '\u{205f}' || c == '\u{3000}';
        match self {
            CharClass::Digit => '0' <= c && c <= '9',
            CharClass::Whitespace => ws,
            CharClass::SymbolChar => !ws && c != '(' && c != ')' && c != '\'' && c != '"' && c
                != ',',
        }
    }
}

/// A reader of expressions from a text. It holds the text, how far it has
/// taken characters, and the last character taken if it has looked at it
/// without using it.
pub struct Reader {
    text: String,
    len: usize,
    pos: usize,
    peek: Option<char>,
}

impl Reader {
    /// The length is the text's and a looked-at character is the one before
    /// the taking position.
    pub closed spec fn wf(&self) -> bool {
        &&& self.len as nat == self.text@.len()
        &&& self.pos <= self.len
        &&& (self.peek matches Some(c) ==> self.pos >= 1 && self.text@[self.pos - 1] == c)
    }

    /// The text being read.
    pub closed spec fn input(&self) -> Seq<char> {
        self.text@
    }

    /// Where reading goes on: the looked-at character, if any, is still unread.
    pub closed spec fn lpos(&self) -> nat {
        if self.peek is Some {
            (self.pos - 1) as nat
        } else {
            self.pos as nat
        }
    }

    /// How many characters have been taken, the looked-at one included.
    pub closed spec fn taken(&self) -> nat {
        self.pos as nat
    }

    /// The character that has been looked at and not used.
    pub closed spec fn peek_view(&self) -> Option<char> {
        self.peek
    }

    /// A reader at the start of `text`.
    pub fn new(text: &str) -> (r: Self)
        ensures
            r.wf(),
            r.input() == text@,
            r.lpos() == 0,
    {
        Reader { text: String::from_str(text), len: text.unicode_len(), pos: 0, peek: None }
    }

    fn char_at(&self, i: usize) -> (c: char)
        requires
            self.wf(),
            i < self.len,
        ensures
            c == self.input()[i as int],
    {
        self.text.as_str().get_char(i)
    }

    fn lpos_exec(&self) -> (r: usize)
        requires
            self.wf(),
        ensures
            r as nat == self.lpos(),
            r <= self.len,
    {
        match self.peek {
            Some(_) => self.pos - 1,
            None => self.pos,
        }
    }

    /// Takes the next character of the text.
    fn next_char(&mut self) -> (r: Option<char>)
        requires
            old(self).wf(),
            old(self).peek is None,
        ensures
            final(self).wf(),
            final(self).text == old(self).text,
            final(self).len == old(self).len,
            final(self).peek is None,
            old(self).pos < old(self).len ==> r == Some(old(self).input()[old(self).pos as int])
                && final(self).pos == old(self).pos + 1,
            old(self).pos >= old(self).len ==> r is None && final(self).pos == old(self).pos,
    {
        if self.pos < self.len {
            let c = self.char_at(self.pos);
            self.pos = self.pos + 1;
            Some(c)
        } else {
            None
        }
    }

    /// The next unread character, looked at but not used.
    fn peek_char(&mut self) -> (r: Option<char>)
        requires
            old(self).wf(),
        ensures
            final(self).wf(),
            final(self).input() == old(self).input(),
            final(self).len == old(self).len,
            final(self).lpos() == old(self).lpos(),
            r == (if old(self).lpos() < old(self).len {
                Some(old(self).input()[old(self).lpos() as int])
            } else {
                None::<char>
            }),
            final(self).peek == r,
    {
        if self.peek.is_none() {
            self.peek = self.next_char();
        }
        self.peek
    }

    /// Uses up the looked-at character.
    fn clear(&mut self)
        requires
            old(self).wf(),
        ensures
            final(self).wf(),
            final(self).input() == old(self).input(),
            final(self).len == old(self).len,
            final(self).peek is None,
            final(self).lpos() == old(self).pos,
    {
        self.peek = None;
    }

    /// The end of the run of `class` from `i`.
    fn scan_from(&self, i: usize, class: CharClass) -> (j: usize)
        requires
            self.wf(),
            i <= self.len,
        ensures
            j as nat == scan(self.input(), i as nat, class),
            i <= j <= self.len,
    {
        proof {
            lemma_scan_bounds(self.input(), i as nat, class);
        }
        let mut j = i;
        while j < self.len && class.contains(self.char_at(j))
            invariant
                self.wf(),
                i <= j <= self.len,
                scan(self.input(), i as nat, class) == scan(self.input(), j as nat, class),
            decreases self.len - j,
        {
            j = j + 1;
        }
        j
    }

    /// Goes on reading at `j`, looking at the character there if there is one.
    fn settle(&mut self, j: usize)
        requires
            old(self).wf(),
            j <= old(self).len,
        ensures
            final(self).wf(),
            final(self).input() == old(self).input(),
            final(self).len == old(self).len,
            final(self).lpos() == j,
            final(self).taken() == (if j < old(self).len {
                (j + 1) as nat
            } else {
                old(self).len as nat
            }),
            final(self).peek == (if j < old(self).len {
                Some(old(self).input()[j as int])
            } else {
                None::<char>
            }),
    {
        if j < self.len {
            let c = self.char_at(j);
            self.pos = j + 1;
            self.peek = Some(c);
        } else {
            self.pos = self.len;
            self.peek = None;
        }
    }

    /// Reads the run of `class` that starts where reading goes on, and looks
    /// at the character after it.
    pub fn read_while(&mut self, class: CharClass) -> (r: String)
        requires
            old(self).wf(),
        ensures
            final(self).wf(),
            final(self).input() == old(self).input(),
            final(self).lpos() == scan(old(self).input(), old(self).lpos(), class),
            r@ == old(self).input().subrange(
                old(self).lpos() as int,
                scan(old(self).input(), old(self).lpos(), class) as int,
            ),
            final(self).taken() == (if final(self).lpos() < old(self).input().len() {
                final(self).lpos() + 1
            } else {
                old(self).input().len()
            }),
            final(self).peek_view() == (if final(self).lpos() < old(self).input().len() {
                Some(old(self).input()[final(self).lpos() as int])
            } else {
                None::<char>
            }),
    {
        let lp = self.lpos_exec();
        let j = self.scan_from(lp, class);
        let r = String::from_str(self.text.as_str().substring_char(lp, j));
        self.settle(j);
        r
    }

    /// Skips the run of `class` that starts where reading goes on, and looks
    /// at the character after it.
    pub fn drop_while(&mut self, class: CharClass)
        requires
            old(self).wf(),
        ensures
            final(self).wf(),
            final(self).input() == old(self).input(),
            final(self).lpos() == scan(old(self).input(), old(self).lpos(), class),
            final(self).taken() == (if final(self).lpos() < old(self).input().len() {
                final(self).lpos() + 1
            } else {
                old(self).input().len()
            }),
            final(self).peek_view() == (if final(self).lpos() < old(self).input().len() {
                Some(old(self).input()[final(self).lpos() as int])
            } else {
                None::<char>
            }),
    {
        let lp = self.lpos_exec();
        let j = self.scan_from(lp, class);
        self.settle(j);
    }

    /// Skips white space and looks at the character after it.
    fn skip_whitespaces(&mut self) -> (r: Option<char>)
        requires
            old(self).wf(),
        ensures
            final(self).wf(),
            final(self).input() == old(self).input(),
            final(self).lpos() == scan(old(self).input(), old(self).lpos(), CharClass::Whitespace),
            r == final(self).peek_view(),
            r == (if final(self).lpos() < old(self).input().len() {
                Some(old(self).input()[final(self).lpos() as int])
            } else {
                None::<char>
            }),
    {
        self.drop_while(CharClass::Whitespace);
        self.peek_char()
    }

    /// The value of a token that is an integer literal; nothing where it
    /// does not fit in 32 bits.
    fn read_number(token: &str) -> (r: Option<Object>)
        requires
            is_int_literal(token@),
        ensures
            match token_val(token@) {
                Some(v) => r is Some && r->0@ == v,
                None => r is None,
            },
    {
        let ghost t = token@;
        let n = token.unicode_len();
        let neg = token.get_char(0) == '-';
        let start: usize = if neg {
            1
        } else {
            0
        };
        let ghost ds = t.subrange(start as int, n as int);
        proof {
            assert forall|x: int| 0 <= x < ds.len() implies is_digit(#[trigger] ds[x]) by {
                assert(ds[x] == t[start + x]);
            }
        }
        let mut v: i64 = 0;
        let mut i: usize = start;
        while i < n
            invariant
                n == t.len(),
                t == token@,
                is_int_literal(t),
                neg == (digits_start(t) == 1),
                start == digits_start(t),
                ds == t.subrange(start as int, n as int),
                start <= i <= n,
                v == digits_value(ds.take(i - start)),
                0 <= v <= 0x8000_0000,
                forall|x: int| 0 <= x < ds.len() ==> is_digit(#[trigger] ds[x]),
            decreases n - i,
        {
            let c = token.get_char(i);
            proof {
                assert(c == ds[i - start]);
                assert(is_digit(ds[i - start]));
                assert(ds.take(i + 1 - start).drop_last() =~= ds.take(i - start));
            }
            let d = (c as u32 - '0' as u32) as i64;
            v = v * 10 + d;
            i = i + 1;
            if v > 0x8000_0000 {
                proof {
                    let p = ds.take(i - start);
                    assert(p.drop_last() =~= ds.take(i - 1 - start));
                    assert(p.last() == c);
                    assert(v == digits_value(p));
                    lemma_digits_value_prefix(ds, (i - start) as nat);
                    assert(digits_value(ds) > 0x8000_0000);
                    assert(is_int_literal(t));
                    assert(t.subrange(digits_start(t) as int, t.len() as int) == ds);
                    assert(token_val(t) is None);
                }
                return None;
            }
        }
        proof {
            assert(ds.take(n - start) =~= ds);
        }
        let m = if neg {
            -v
        } else {
            v
        };
        if m < -0x8000_0000 || m > 0x7fff_ffff {
            None
        } else {
            Some(Object::Number(m as i32))
        }
    }

    /// Whether a token is an integer literal.
    fn is_int_literal(token: &str) -> (r: bool)
        ensures
            r == is_int_literal(token@),
    {
        let n = token.unicode_len();
        if n == 0 {
            return false;
        }
        let start: usize = if token.get_char(0) == '-' {
            1
        } else {
            0
        };
        if n <= start {
            return false;
        }
        let mut i: usize = start;
        while i < n
            invariant
                n == token@.len(),
                start == digits_start(token@),
                start <= i <= n,
                forall|x: int| start <= x < i ==> is_digit(#[trigger] token@[x]),
            decreases n - i,
        {
            let c = token.get_char(i);
            if !('0' <= c && c <= '9') {
                return false;
            }
            i = i + 1;
        }
        true
    }

    /// A token, at whose first character the reader looks: an integer, `t`,
    /// `nil` or a symbol; nothing for an integer that does not fit in 32 bits.
    fn read_symbol(&mut self) -> (r: Option<Object>)
        requires
            old(self).wf(),
        ensures
            final(self).wf(),
            final(self).input() == old(self).input(),
            final(self).lpos() == scan(old(self).input(), old(self).lpos(), CharClass::SymbolChar),
            match token_val(
                old(self).input().subrange(
                    old(self).lpos() as int,
                    scan(old(self).input(), old(self).lpos(), CharClass::SymbolChar) as int,
                ),
            ) {
                Some(v) => r is Some && r->0@ == v,
                None => r is None,
            },
    {
        let name = self.read_while(CharClass::SymbolChar);
        if Self::is_int_literal(name.as_str()) {
            Self::read_number(name.as_str())
        } else if str_eq(name.as_str(), "t") {
            Some(Object::T)
        } else if str_eq(name.as_str(), "nil") {
            Some(Object::Nil)
        } else {
            Some(Object::Symbol(name))
        }
    }

    /// A list, at whose `(` the reader looks: its items up to the `)`.
    fn read_list(&mut self) -> (r: Option<Object>)
        requires
            old(self).wf(),
            old(self).lpos() < old(self).input().len(),
            old(self).peek_view() == Some(old(self).input()[old(self).lpos() as int]),
        ensures
            final(self).wf(),
            final(self).input() == old(self).input(),
            match parse_items(old(self).input(), old(self).lpos() + 1) {
                Some((v, k)) => r is Some && r->0@ == v && final(self).lpos() == k,
                None => r is None,
            },
        decreases old(self).input().len() - old(self).lpos() - 1, 1nat,
    {
        let ghost s = self.input();
        let mut elems: Vec<Object> = Vec::new();
        self.clear();
        let ghost i0 = self.lpos();
        loop
            invariant
                self.wf(),
                self.input() == s,
                s == old(self).input(),
                i0 <= self.lpos() <= s.len(),
                i0 == old(self).lpos() + 1,
                parse_items(s, i0) == match parse_items(s, self.lpos()) {
                    Some((t, m)) => Some((prepend(elems@, t), m)),
                    None => None::<(Val, nat)>,
                },
            decreases s.len() - self.lpos(),
        {
            let ghost i = self.lpos();
            proof {
                lemma_scan_bounds(s, i, CharClass::Whitespace);
            }
            let c = match self.skip_whitespaces() {
                Some(c) => c,
                None => return None,
            };
            let j = self.lpos_exec();
            if c == ')' {
                self.clear();
                let mut acc = Object::Nil;
                let ghost all = elems@;
                while elems.len() > 0
                    invariant
                        prepend(all, Val::Nil) == prepend(elems@, acc@),
                    decreases elems.len(),
                {
                    let ghost before = elems@;
                    let e = elems.pop().unwrap();
                    proof {
                        assert(before.drop_last() =~= elems@);
                    }
                    acc = Object::Cons(Rc::new(e), Rc::new(acc));
                }
                return Some(acc);
            }
            let e = match self.next() {
                Some(e) => e,
                None => return None,
            };
            let k = self.lpos_exec();
            if k <= j {
                return None;
            }
            let ghost before = elems@;
            elems.push(e);
            proof {
                assert(elems@.drop_last() =~= before);
            }
        }
    }

    /// The next expression of the text; nothing where none can be read.
    pub fn next(&mut self) -> (r: Option<Object>)
        requires
            old(self).wf(),
        ensures
            final(self).wf(),
            final(self).input() == old(self).input(),
            match parse_expr(old(self).input(), old(self).lpos()) {
                Some((v, k)) => r is Some && r->0@ == v && final(self).lpos() == k,
                None => r is None,
            },
        decreases old(self).input().len() - old(self).lpos(), 0nat,
    {
        proof {
            lemma_scan_bounds(self.input(), self.lpos(), CharClass::Whitespace);
        }
        let c = match self.skip_whitespaces() {
            Some(c) => c,
            None => return None,
        };
        if c == '(' {
            self.read_list()
        } else if CharClass::SymbolChar.contains(c) {
            self.read_symbol()
        } else {
            None
        }
    }

    /// The character that has been looked at and not used, if any.
    pub fn peeked(&self) -> (r: Option<char>)
        ensures
            r == self.peek_view(),
    {
        self.peek
    }

    /// The text after the taking position: what is left once the looked-at
    /// character, if any, is used.
    pub fn rest(&self) -> (r: String)
        requires
            self.wf(),
        ensures
            r@ == self.input().subrange(self.taken() as int, self.input().len() as int),
    {
        String::from_str(self.text.as_str().substring_char(self.pos, self.len))
    }
}

/// A reader of the expressions of `text`, one after another.
pub fn read(text: &str) -> (r: Reader)
    ensures
        r.wf(),
        r.input() == text@,
        r.lpos() == 0,
{
    Reader::new(text)
}

/// The first expression of a line; nothing for a line that is empty or does
/// not start with a readable expression.
pub fn read_string(text: &str) -> (r: Option<Object>)
    ensures
        match parse_expr(text@, 0) {
            Some((v, _)) => r is Some && r->0@ == v,
            None => r is None,
        },
{
    let mut reader = read(text);
    reader.next()
}

} // verus!
