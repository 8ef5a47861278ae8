//! The parser of the assignments that follow `SET`: it reads the text by
//! the grammar and hands out, for each assignment, the variable and the
//! source text of the expression.

use crate::grammar::{expression_end, ident_end, lemma_run_end, skip_ws, CharClass, UpdateParser};
use crate::literal::{integer_text, push_decimal};
use crate::text::{chars_of, string_from, string_of, trim, trimmed};
use vstd::prelude::*;

verus! {

/// One assignment: the variable on the left and the source text of the
/// expression on the right.
#[derive(Debug)]
pub struct Assignment {
    pub variable: String,
    pub expression: String,
}

/// View of an [`Assignment`].
pub struct AssignmentSpec {
    pub variable: Seq<char>,
    pub expression: Seq<char>,
}

impl View for Assignment {
    type V = AssignmentSpec;

    open spec fn view(&self) -> AssignmentSpec {
        AssignmentSpec { variable: self.variable@, expression: self.expression@ }
    }
}

impl Clone for Assignment {
    fn clone(&self) -> (a: Self)
        ensures
            a@ == self@,
    {
        Assignment { variable: self.variable.clone(), expression: self.expression.clone() }
    }
}

/// The views of a sequence of assignments.
pub open spec fn assignments_view(a: Seq<Assignment>) -> Seq<AssignmentSpec> {
    a.map_values(|x: Assignment| x@)
}

/// The assignment that begins at `i` and the position after it, or the
/// position at which the text stops being an assignment. The expression is
/// the text from its first operand to its last, as written.
pub open spec fn assignment_at(s: Seq<char>, i: int) -> Result<(AssignmentSpec, int), int> {
    match ident_end(s, i) {
        None => Err(i),
        Some(k) => {
            let j = skip_ws(s, k);
            if 0 <= j < s.len() && s[j] == '=' {
                let e = skip_ws(s, j + 1);
                match expression_end(s, e) {
                    None => Err(e),
                    Some(m) => Ok(
                        (
                            AssignmentSpec {
                                variable: s.subrange(i, k),
                                expression: s.subrange(e, m),
                            },
                            m,
                        ),
                    ),
                }
            } else {
                Err(j)
            }
        },
    }
}

/// The assignments from `i` to the end of the text, separated by commas,
/// or the position at which the text stops being such a list.
pub open spec fn assignments_from(s: Seq<char>, i: int) -> Result<Seq<AssignmentSpec>, int>
    decreases s.len() - i,
{
    match assignment_at(s, i) {
        Err(at) => Err(at),
        Ok((a, m)) => {
            let j = skip_ws(s, m);
            if j >= s.len() {
                Ok(seq![a])
            } else if i <= j && s[j] == ',' {
                proof {
                    lemma_run_end(s, j + 1, CharClass::Space);
                }
                match assignments_from(s, skip_ws(s, j + 1)) {
                    Ok(rest) => Ok(seq![a] + rest),
                    Err(at) => Err(at),
                }
            } else {
                Err(j)
            }
        },
    }
}

/// What parsing `input` gives: the assignments of the text without the
/// white space around it, or the position in that text at which it stops
/// being a list of assignments.
pub open spec fn parse_program(input: Seq<char>) -> Result<Seq<AssignmentSpec>, int> {
    assignments_from(trim(input), 0)
}

/// The message for a text that stops being a list of assignments at
/// `position`.
pub open spec fn error_text(position: int) -> Seq<char> {
    "Parse error: unexpected input at position "@ + integer_text(position)
}

/// The assignments `done` put in front of the outcome of parsing the rest.
pub open spec fn with_assignments(
    done: Seq<AssignmentSpec>,
    rest: Result<Seq<AssignmentSpec>, int>,
) -> Result<Seq<AssignmentSpec>, int> {
    match rest {
        Ok(r) => Ok(done + r),
        Err(at) => Err(at),
    }
}

/// The assignments of an `UPDATE` statement, in the order written.
#[derive(Debug)]
pub struct ExpressionParser {
    pub assignments: Vec<Assignment>,
}

impl View for ExpressionParser {
    type V = Seq<AssignmentSpec>;

    open spec fn view(&self) -> Seq<AssignmentSpec> {
        assignments_view(self.assignments@)
    }
}

impl ExpressionParser {
    /// Reads the assignment that begins at `v[i]`, as [`assignment_at`]
    /// says.
    pub fn assignment(v: &Vec<char>, i: usize) -> (r: Result<(Assignment, usize), usize>)
        requires
            i <= v.len(),
        ensures
            match assignment_at(v@, i as int) {
                Ok((a, m)) => r matches Ok((x, end)) && x@ == a && end == m && i < end <= v.len(),
                Err(at) => r == Err::<(Assignment, usize), usize>(at as usize) && 0 <= at
                    <= v.len(),
            },
    {
        match UpdateParser::identifier(v, i) {
            None => Err(i),
            Some(k) => {
                let j = UpdateParser::class_run(v, k, CharClass::Space);
                if j < v.len() && v[j] == '=' {
                    let e = UpdateParser::class_run(v, j + 1, CharClass::Space);
                    match UpdateParser::expression(v, e) {
                        None => Err(e),
                        Some(m) => Ok(
                            (
                                Assignment {
                                    variable: string_from(v, i, k),
                                    expression: string_from(v, e, m),
                                },
                                m,
                            ),
                        ),
                    }
                } else {
                    Err(j)
                }
            },
        }
    }

    /// Parses the text after `SET`. Gives the assignments in the order
    /// written, or, where the text is not a list of assignments, the
    /// message of [`error_text`] with the position at which it stops being
    /// one.
    pub fn parse(input: &str) -> (r: Result<Self, String>)
        ensures
            match parse_program(input@) {
                Ok(list) => r matches Ok(p) && p@ == list,
                Err(at) => r matches Err(message) && message@ == error_text(at),
            },
    {
        let raw = chars_of(input);
        let v = trimmed(&raw);
        let mut assignments: Vec<Assignment> = Vec::new();
        let mut i: usize = 0;
        let mut failed: Option<usize> = None;
        proof {
            let whole = assignments_from(v@, 0);
            if whole is Ok {
                assert(Seq::<AssignmentSpec>::empty() + whole->Ok_0 =~= whole->Ok_0);
            }
        }
        loop
            invariant_except_break
                failed is None,
                assignments_from(v@, 0) == with_assignments(
                    assignments_view(assignments@),
                    assignments_from(v@, i as int),
                ),
            invariant
                i <= v.len(),
                v@ == trim(input@),
            ensures
                match failed {
                    Some(at) => assignments_from(v@, 0) == Err::<Seq<AssignmentSpec>, int>(
                        at as int,
                    ),
                    None => assignments_from(v@, 0) == Ok::<Seq<AssignmentSpec>, int>(
                        assignments_view(assignments@),
                    ),
                },
            decreases v.len() - i,
        {
            let ghost done = assignments_view(assignments@);
            match Self::assignment(&v, i) {
                Err(at) => {
                    failed = Some(at);
                    break ;
                },
                Ok((a, m)) => {
                    let j = UpdateParser::class_run(&v, m, CharClass::Space);
                    let ghost spec_a = a@;
                    assignments.push(a);
                    assert(assignments_view(assignments@) =~= done.push(spec_a));
                    if j >= v.len() {
                        assert(done + seq![spec_a] =~= done.push(spec_a));
                        break ;
                    } else if v[j] == ',' {
                        let next = UpdateParser::class_run(&v, j + 1, CharClass::Space);
                        proof {
                            let rest = assignments_from(v@, next as int);
                            if rest is Ok {
                                assert(done + (seq![spec_a] + rest->Ok_0) =~= done.push(spec_a)
                                    + rest->Ok_0);
                            }
                        }
                        i = next;
                    } else {
                        failed = Some(j);
                        break ;
                    }
                },
            }
        }
        match failed {
            Some(at) => {
                let mut message = chars_of("Parse error: unexpected input at position ");
                push_decimal(&mut message, at as u64);
                Err(string_of(&message))
            },
            None => Ok(ExpressionParser { assignments }),
        }
    }
}

} // verus!
