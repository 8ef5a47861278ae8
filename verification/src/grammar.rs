//! The grammar of the assignments that follow `SET`.
//!
//! ```text
//! program     = assignment ("," assignment)*
//! assignment  = identifier "=" expression
//! expression  = operand (operator operand)*
//! operator    = "+" | "-" | "*" | "/"
//! operand     = "(" expression ")"
//!             | number
//!             | identifier "(" expression ("," expression)* ")"
//!             | identifier
//! number      = digit+ ("." digit+)?
//! identifier  = (letter | "_") (letter | digit | "_")*
//! ```
//!
//! Letters and digits are those of ASCII. White space may stand between
//! any two tokens. Alternatives are tried in the order written and
//! repetitions take as much as they can, so every text has at most one
//! reading. Each rule is a function from a position in the text to the
//! position after what the rule matched there.

use crate::text::{is_space, is_whitespace, is_word_char, word_char};
use vstd::prelude::*;

verus! {

/// A class of characters that a token is a run of.
#[derive(Clone, Copy, Debug, PartialEq, Eq, Structural)]
pub enum CharClass {
    /// White space.
    Space,
    /// The decimal digits.
    Digit,
    /// The ASCII letters, the decimal digits and `_`.
    Word,
}

/// Whether `c` is an ASCII letter.
pub open spec fn is_letter(c: char) -> bool {
    0x41 <= c as u32 <= 0x5A || 0x61 <= c as u32 <= 0x7A
}

/// Whether `c` is in the class.
pub open spec fn in_class(class: CharClass, c: char) -> bool {
    match class {
        CharClass::Space => is_space(c),
        CharClass::Digit => 0x30 <= c as u32 <= 0x39,
        CharClass::Word => is_word_char(c),
    }
}

/// Whether an identifier can begin with `c`.
pub open spec fn is_ident_start(c: char) -> bool {
    is_letter(c) || c == '_'
}

/// Whether `c` is one of the four operators.
pub open spec fn is_operator(c: char) -> bool {
    c == '+' || c == '-' || c == '*' || c == '/'
}

/// The position after the run of characters of the class that begins at
/// `i`: `i` itself where no such character stands at `i`.
pub open spec fn run_end(s: Seq<char>, i: int, class: CharClass) -> int
    decreases s.len() - i,
{
    if 0 <= i < s.len() && in_class(class, s[i]) {
        run_end(s, i + 1, class)
    } else {
        i
    }
}

/// The position of the first character at or after `i` that is not white
/// space.
pub open spec fn skip_ws(s: Seq<char>, i: int) -> int {
    run_end(s, i, CharClass::Space)
}

/// A run ends at or after its beginning, within the text, on a character
/// that is not of the class.
pub proof fn lemma_run_end(s: Seq<char>, i: int, class: CharClass)
    requires
        0 <= i <= s.len(),
    ensures
        i <= run_end(s, i, class) <= s.len(),
        forall|j: int| i <= j < run_end(s, i, class) ==> in_class(class, s[j]),
        run_end(s, i, class) < s.len() ==> !in_class(class, s[run_end(s, i, class)]),
    decreases s.len() - i,
{
    if i < s.len() && in_class(class, s[i]) {
        lemma_run_end(s, i + 1, class);
    }
}

/// The position after the identifier that begins at `i`, if one does.
pub open spec fn ident_end(s: Seq<char>, i: int) -> Option<int> {
    if 0 <= i < s.len() && is_ident_start(s[i]) {
        Some(run_end(s, i + 1, CharClass::Word))
    } else {
        None
    }
}

/// The position after the number that begins at `i`, if one does.
pub open spec fn number_end(s: Seq<char>, i: int) -> Option<int> {
    if 0 <= i < s.len() && in_class(CharClass::Digit, s[i]) {
        let j = run_end(s, i, CharClass::Digit);
        if j + 1 < s.len() && s[j] == '.' && in_class(CharClass::Digit, s[j + 1]) {
            Some(run_end(s, j + 1, CharClass::Digit))
        } else {
            Some(j)
        }
    } else {
        None
    }
}

/// The position after the operand that begins at `i`, if one does.
pub open spec fn operand_end(s: Seq<char>, i: int) -> Option<int>
    decreases s.len() - i, 0int,
{
    if !(0 <= i < s.len()) {
        None
    } else if s[i] == '(' {
        proof {
            lemma_run_end(s, i + 1, CharClass::Space);
        }
        match expression_end(s, skip_ws(s, i + 1)) {
            Some(k) => {
                let j = skip_ws(s, k);
                if 0 <= j < s.len() && s[j] == ')' {
                    Some(j + 1)
                } else {
                    None
                }
            },
            None => None,
        }
    } else if number_end(s, i) is Some {
        number_end(s, i)
    } else if ident_end(s, i) is Some {
        let k = ident_end(s, i)->0;
        let j = skip_ws(s, k);
        proof {
            lemma_run_end(s, i + 1, CharClass::Word);
            lemma_run_end(s, k, CharClass::Space);
            if j < s.len() {
                lemma_run_end(s, j + 1, CharClass::Space);
            }
        }
        if j < s.len() && s[j] == '(' {
            match arguments_end(s, skip_ws(s, j + 1)) {
                Some(m) => Some(m),
                None => Some(k),
            }
        } else {
            Some(k)
        }
    } else {
        None
    }
}

/// The position after the expression that begins at `i`, if one does.
pub open spec fn expression_end(s: Seq<char>, i: int) -> Option<int>
    decreases s.len() - i, 1int,
{
    if !(0 <= i <= s.len()) {
        None
    } else {
        match operand_end(s, i) {
            Some(k) => if i < k <= s.len() {
                Some(operators_end(s, k))
            } else {
                None
            },
            None => None,
        }
    }
}

/// The position after the operators and operands that follow an operand
/// which ends at `k`: `k` itself where none follows.
pub open spec fn operators_end(s: Seq<char>, k: int) -> int
    decreases s.len() - k, 2int,
{
    if !(0 <= k <= s.len()) {
        k
    } else {
        let j = skip_ws(s, k);
        proof {
            lemma_run_end(s, k, CharClass::Space);
            if j < s.len() {
                lemma_run_end(s, j + 1, CharClass::Space);
            }
        }
        if j < s.len() && is_operator(s[j]) {
            match operand_end(s, skip_ws(s, j + 1)) {
                Some(m) => if k < m <= s.len() {
                    operators_end(s, m)
                } else {
                    k
                },
                None => k,
            }
        } else {
            k
        }
    }
}

/// The position after the arguments of a call and its closing bracket,
/// where the first argument begins at `i`.
pub open spec fn arguments_end(s: Seq<char>, i: int) -> Option<int>
    decreases s.len() - i, 2int,
{
    if !(0 <= i <= s.len()) {
        None
    } else {
        match expression_end(s, i) {
            Some(k) => {
                let j = skip_ws(s, k);
                proof {
                    if 0 <= j < s.len() {
                        lemma_run_end(s, j + 1, CharClass::Space);
                    }
                }
                if i < j < s.len() && s[j] == ')' {
                    Some(j + 1)
                } else if i < j < s.len() && s[j] == ',' {
                    arguments_end(s, skip_ws(s, j + 1))
                } else {
                    None
                }
            },
            None => None,
        }
    }
}

/// Executable form of [`in_class`].
pub fn class_has(class: CharClass, c: char) -> (b: bool)
    ensures
        b == in_class(class, c),
{
    let u: u32 = c as u32;
    match class {
        CharClass::Space => is_whitespace(c),
        CharClass::Digit => 0x30 <= u && u <= 0x39,
        CharClass::Word => word_char(c),
    }
}

/// The recogniser of the grammar: one function for each rule, from a
/// position in the text to the position after what the rule matched.
#[derive(Debug)]
pub struct UpdateParser;

impl UpdateParser {
    /// Executable form of [`run_end`].
    pub fn class_run(v: &Vec<char>, i: usize, class: CharClass) -> (j: usize)
        requires
            i <= v.len(),
        ensures
            j == run_end(v@, i as int, class),
            i <= j <= v.len(),
    {
        let mut j: usize = i;
        while j < v.len() && class_has(class, v[j])
            invariant
                i <= j <= v.len(),
                run_end(v@, i as int, class) == run_end(v@, j as int, class),
            decreases v.len() - j,
        {
            j = j + 1;
        }
        j
    }

    /// Executable form of [`ident_end`].
    pub fn identifier(v: &Vec<char>, i: usize) -> (r: Option<usize>)
        requires
            i <= v.len(),
        ensures
            match r {
                Some(k) => ident_end(v@, i as int) == Some(k as int) && i < k <= v.len(),
                None => ident_end(v@, i as int) is None,
            },
    {
        if i < v.len() && (class_has(CharClass::Word, v[i]) && !class_has(CharClass::Digit, v[i])) {
            Some(Self::class_run(v, i + 1, CharClass::Word))
        } else {
            None
        }
    }

    /// Executable form of [`number_end`].
    pub fn number(v: &Vec<char>, i: usize) -> (r: Option<usize>)
        requires
            i <= v.len(),
        ensures
            match r {
                Some(k) => number_end(v@, i as int) == Some(k as int) && i < k <= v.len(),
                None => number_end(v@, i as int) is None,
            },
    {
        if i < v.len() && class_has(CharClass::Digit, v[i]) {
            let j = Self::class_run(v, i + 1, CharClass::Digit);
            assert(run_end(v@, i as int, CharClass::Digit) == j);
            if j < v.len() && j + 1 < v.len() && v[j] == '.' && class_has(
                CharClass::Digit,
                v[j + 1],
            ) {
                Some(Self::class_run(v, j + 1, CharClass::Digit))
            } else {
                Some(j)
            }
        } else {
            None
        }
    }

    /// Executable form of [`operand_end`].
    pub fn operand(v: &Vec<char>, i: usize) -> (r: Option<usize>)
        requires
            i <= v.len(),
        ensures
            match r {
                Some(k) => operand_end(v@, i as int) == Some(k as int) && i < k <= v.len(),
                None => operand_end(v@, i as int) is None,
            },
        decreases v.len() - i, 0int,
    {
        if i >= v.len() {
            return None;
        }
        if v[i] == '(' {
            let start = Self::class_run(v, i + 1, CharClass::Space);
            return match Self::expression(v, start) {
                Some(k) => {
                    let j = Self::class_run(v, k, CharClass::Space);
                    if j < v.len() && v[j] == ')' {
                        Some(j + 1)
                    } else {
                        None
                    }
                },
                None => None,
            };
        }
        match Self::number(v, i) {
            Some(k) => {
                return Some(k);
            },
            None => {},
        }
        match Self::identifier(v, i) {
            Some(k) => {
                let j = Self::class_run(v, k, CharClass::Space);
                if j < v.len() && v[j] == '(' {
                    let start = Self::class_run(v, j + 1, CharClass::Space);
                    match Self::arguments(v, start) {
                        Some(m) => Some(m),
                        None => Some(k),
                    }
                } else {
                    Some(k)
                }
            },
            None => None,
        }
    }

    /// Executable form of [`expression_end`].
    pub fn expression(v: &Vec<char>, i: usize) -> (r: Option<usize>)
        requires
            i <= v.len(),
        ensures
            match r {
                Some(k) => expression_end(v@, i as int) == Some(k as int) && i < k <= v.len(),
                None => expression_end(v@, i as int) is None,
            },
        decreases v.len() - i, 1int,
    {
        match Self::operand(v, i) {
            Some(k) => Some(Self::operators(v, k)),
            None => None,
        }
    }

    /// Executable form of [`operators_end`].
    pub fn operators(v: &Vec<char>, k: usize) -> (r: usize)
        requires
            k <= v.len(),
        ensures
            r == operators_end(v@, k as int),
            k <= r <= v.len(),
        decreases v.len() - k, 2int,
    {
        let mut end: usize = k;
        loop
            invariant
                k <= end <= v.len(),
                operators_end(v@, k as int) == operators_end(v@, end as int),
            decreases v.len() - end,
        {
            let j = Self::class_run(v, end, CharClass::Space);
            if !(j < v.len() && (v[j] == '+' || v[j] == '-' || v[j] == '*' || v[j] == '/')) {
                return end;
            }
            let start = Self::class_run(v, j + 1, CharClass::Space);
            match Self::operand(v, start) {
                Some(m) => {
                    end = m;
                },
                None => {
                    return end;
                },
            }
        }
    }

    /// Executable form of [`arguments_end`].
    pub fn arguments(v: &Vec<char>, i: usize) -> (r: Option<usize>)
        requires
            i <= v.len(),
        ensures
            match r {
                Some(k) => arguments_end(v@, i as int) == Some(k as int) && i < k <= v.len(),
                None => arguments_end(v@, i as int) is None,
            },
        decreases v.len() - i, 2int,
    {
        let mut at: usize = i;
        loop
            invariant
                i <= at <= v.len(),
                arguments_end(v@, i as int) == arguments_end(v@, at as int),
            decreases v.len() - at,
        {
            match Self::expression(v, at) {
                Some(k) => {
                    let j = Self::class_run(v, k, CharClass::Space);
                    if j < v.len() && v[j] == ')' {
                        return Some(j + 1);
                    } else if j < v.len() && v[j] == ',' {
                        at = Self::class_run(v, j + 1, CharClass::Space);
                    } else {
                        return None;
                    }
                },
                None => {
                    return None;
                },
            }
        }
    }
}

} // verus!
