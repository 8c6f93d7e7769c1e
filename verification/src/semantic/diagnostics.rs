use vstd::prelude::*;

use crate::text::{nat_text, push_nat_text};

verus! {

/// The message for: a declared type that is not one of the language's types.
pub open spec fn type_not_defined_message(t: Seq<char>) -> Seq<char> {
    "Type '"@ + t + "' is not defined."@
}

/// Builds `type_not_defined_message`.
pub fn type_not_defined(t: &str) -> (m: String)
    ensures
        m@ == type_not_defined_message(t@),
{
    let mut m = String::from_str("Type '");
    m.append(t);
    m.append("' is not defined.");
    m
}

/// The message for: a variable initialised with a value of another type.
pub open spec fn var_decl_mismatch_message(name: Seq<char>, expected: Seq<char>, found: Seq<char>) -> Seq<char> {
    "Type mismatch in variable declaration '"@ + name + "': expected '"@ + expected + "', found '"@ + found + "'."@
}

/// Builds `var_decl_mismatch_message`.
pub fn var_decl_mismatch(name: &str, expected: &str, found: &str) -> (m: String)
    ensures
        m@ == var_decl_mismatch_message(name@, expected@, found@),
{
    let mut m = String::from_str("Type mismatch in variable declaration '");
    m.append(name);
    m.append("': expected '");
    m.append(expected);
    m.append("', found '");
    m.append(found);
    m.append("'.");
    m
}

/// The message for: a returned value of another type than the function's.
pub open spec fn return_mismatch_message(expected: Seq<char>, found: Seq<char>) -> Seq<char> {
    "Type mismatch in return statement: expected '"@ + expected + "', found '"@ + found + "'."@
}

/// Builds `return_mismatch_message`.
pub fn return_mismatch(expected: &str, found: &str) -> (m: String)
    ensures
        m@ == return_mismatch_message(expected@, found@),
{
    let mut m = String::from_str("Type mismatch in return statement: expected '");
    m.append(expected);
    m.append("', found '");
    m.append(found);
    m.append("'.");
    m
}

/// The message for: a return without a value in a function that returns one.
pub open spec fn return_missing_message(expected: Seq<char>) -> Seq<char> {
    "Return statement missing a value: expected '"@ + expected + "'."@
}

/// Builds `return_missing_message`.
pub fn return_missing(expected: &str) -> (m: String)
    ensures
        m@ == return_missing_message(expected@),
{
    let mut m = String::from_str("Return statement missing a value: expected '");
    m.append(expected);
    m.append("'.");
    m
}

/// The message for: a name that no scope defines, used as a variable.
pub open spec fn undefined_variable_message(name: Seq<char>) -> Seq<char> {
    "Undefined variable '"@ + name + "'."@
}

/// Builds `undefined_variable_message`.
pub fn undefined_variable(name: &str) -> (m: String)
    ensures
        m@ == undefined_variable_message(name@),
{
    let mut m = String::from_str("Undefined variable '");
    m.append(name);
    m.append("'.");
    m
}

/// The message for: an assignment of a value of another type than the variable's.
pub open spec fn assign_mismatch_message(name: Seq<char>, expected: Seq<char>, found: Seq<char>) -> Seq<char> {
    "Type mismatch in assignment to '"@ + name + "': expected '"@ + expected + "', found '"@ + found + "'."@
}

/// Builds `assign_mismatch_message`.
pub fn assign_mismatch(name: &str, expected: &str, found: &str) -> (m: String)
    ensures
        m@ == assign_mismatch_message(name@, expected@, found@),
{
    let mut m = String::from_str("Type mismatch in assignment to '");
    m.append(name);
    m.append("': expected '");
    m.append(expected);
    m.append("', found '");
    m.append(found);
    m.append("'.");
    m
}

/// The message for: an assignment to a function.
pub open spec fn not_a_variable_message(name: Seq<char>) -> Seq<char> {
    "'"@ + name + "' is not a variable."@
}

/// Builds `not_a_variable_message`.
pub fn not_a_variable(name: &str) -> (m: String)
    ensures
        m@ == not_a_variable_message(name@),
{
    let mut m = String::from_str("'");
    m.append(name);
    m.append("' is not a variable.");
    m
}

/// The message for: a condition that is not a boolean.
pub open spec fn cond_not_bool_message(kind: Seq<char>, found: Seq<char>) -> Seq<char> {
    "Condition in '"@ + kind + "' statement must be of type 'bool', found '"@ + found + "'."@
}

/// Builds `cond_not_bool_message`.
pub fn cond_not_bool(kind: &str, found: &str) -> (m: String)
    ensures
        m@ == cond_not_bool_message(kind@, found@),
{
    let mut m = String::from_str("Condition in '");
    m.append(kind);
    m.append("' statement must be of type 'bool', found '");
    m.append(found);
    m.append("'.");
    m
}

/// The message for: a condition whose type cannot be determined.
pub open spec fn cond_unknown_message(kind: Seq<char>) -> Seq<char> {
    "Unable to determine the type of the condition in '"@ + kind + "' statement."@
}

/// Builds `cond_unknown_message`.
pub fn cond_unknown(kind: &str) -> (m: String)
    ensures
        m@ == cond_unknown_message(kind@),
{
    let mut m = String::from_str("Unable to determine the type of the condition in '");
    m.append(kind);
    m.append("' statement.");
    m
}

/// The message for: a case value of another type than the switched value.
pub open spec fn case_mismatch_message(found: Seq<char>, expected: Seq<char>) -> Seq<char> {
    "Case type '"@ + found + "' does not match switch type '"@ + expected + "'."@
}

/// Builds `case_mismatch_message`.
pub fn case_mismatch(found: &str, expected: &str) -> (m: String)
    ensures
        m@ == case_mismatch_message(found@, expected@),
{
    let mut m = String::from_str("Case type '");
    m.append(found);
    m.append("' does not match switch type '");
    m.append(expected);
    m.append("'.");
    m
}

/// The message for: a parameter whose type is not one of the language's types.
pub open spec fn param_type_not_defined_message(t: Seq<char>, name: Seq<char>) -> Seq<char> {
    "Type '"@ + t + "' is not defined for parameter '"@ + name + "'."@
}

/// Builds `param_type_not_defined_message`.
pub fn param_type_not_defined(t: &str, name: &str) -> (m: String)
    ensures
        m@ == param_type_not_defined_message(t@, name@),
{
    let mut m = String::from_str("Type '");
    m.append(t);
    m.append("' is not defined for parameter '");
    m.append(name);
    m.append("'.");
    m
}

/// The message for: a binary operation on operands of different types.
pub open spec fn binary_mismatch_message(left: Seq<char>, right: Seq<char>) -> Seq<char> {
    "Type mismatch in binary expression: '"@ + left + "' and '"@ + right + "'."@
}

/// Builds `binary_mismatch_message`.
pub fn binary_mismatch(left: &str, right: &str) -> (m: String)
    ensures
        m@ == binary_mismatch_message(left@, right@),
{
    let mut m = String::from_str("Type mismatch in binary expression: '");
    m.append(left);
    m.append("' and '");
    m.append(right);
    m.append("'.");
    m
}

/// The message for: a binary operator that the type rules do not know.
pub open spec fn unknown_operator_message(op: Seq<char>) -> Seq<char> {
    "Unknown binary operator '"@ + op + "'."@
}

/// Builds `unknown_operator_message`.
pub fn unknown_operator(op: &str) -> (m: String)
    ensures
        m@ == unknown_operator_message(op@),
{
    let mut m = String::from_str("Unknown binary operator '");
    m.append(op);
    m.append("'.");
    m
}

/// The message for: a call of a variable.
pub open spec fn not_a_function_message(name: Seq<char>) -> Seq<char> {
    "'"@ + name + "' is not a function."@
}

/// Builds `not_a_function_message`.
pub fn not_a_function(name: &str) -> (m: String)
    ensures
        m@ == not_a_function_message(name@),
{
    let mut m = String::from_str("'");
    m.append(name);
    m.append("' is not a function.");
    m
}

/// The message for: a call of a name that no scope defines.
pub open spec fn undefined_function_message(name: Seq<char>) -> Seq<char> {
    "Undefined function '"@ + name + "'."@
}

/// Builds `undefined_function_message`.
pub fn undefined_function(name: &str) -> (m: String)
    ensures
        m@ == undefined_function_message(name@),
{
    let mut m = String::from_str("Undefined function '");
    m.append(name);
    m.append("'.");
    m
}

/// The message for a call whose argument count differs from the function's
/// parameter count.
pub open spec fn arg_count_message(name: Seq<char>, expected: nat, given: nat) -> Seq<char> {
    "Function '"@ + name + "' expects "@ + nat_text(expected) + " arguments, but "@ + nat_text(given)
        + " were provided."@
}

/// Builds `arg_count_message`.
pub fn arg_count(name: &str, expected: usize, given: usize) -> (m: String)
    ensures
        m@ == arg_count_message(name@, expected as nat, given as nat),
{
    let mut m = String::from_str("Function '");
    m.append(name);
    m.append("' expects ");
    push_nat_text(&mut m, expected as u128);
    m.append(" arguments, but ");
    push_nat_text(&mut m, given as u128);
    m.append(" were provided.");
    m
}

} // verus!
