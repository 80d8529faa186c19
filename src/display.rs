//! Human-readable rendering of constants.
use crate::disasm::{decode_from, disassemble, listing, lines_view, render_listing, DisassembleError};
use crate::text::{decimal, push_decimal, push_signed_decimal, signed_decimal};
use crate::value::{Object, ObjectModel, Value, ValueModel};
use vstd::prelude::*;
use vstd::string::StringExecFns;

verus! {

/// The header line of a function: its name and parameter count.
pub open spec fn function_header(identifier: Seq<char>, param_count: u8) -> Seq<char> {
    "func<'"@ + identifier + "', "@ + decimal(param_count as nat) + ">"@
}

/// The lines that render an object: a string's text, or a function's
/// header followed by the listing of its body.
pub open spec fn object_lines(o: ObjectModel) -> Result<Seq<Seq<char>>, DisassembleError> {
    match o {
        ObjectModel::Str(s) => Ok(seq![s]),
        ObjectModel::Function { identifier, param_count, code } => match decode_from(code, 0) {
            Ok(ins) => Ok(seq![function_header(identifier, param_count)] + listing(ins)),
            Err(e) => Err(e),
        },
    }
}

/// The lines that render a value: a scalar's literal on one line, or its
/// object's lines.
pub open spec fn value_lines(v: ValueModel) -> Result<Seq<Seq<char>>, DisassembleError> {
    match v {
        ValueModel::Int(i) => Ok(seq![signed_decimal(i as int)]),
        ValueModel::Bool(b) => Ok(seq![if b { "true"@ } else { "false"@ }]),
        ValueModel::Object(o) => object_lines(o),
    }
}

impl Object {
    /// The lines that render this object; fails where a function body does
    /// not disassemble.
    pub fn display(&self) -> (r: Result<Vec<String>, DisassembleError>)
        ensures
            match r {
                Ok(lines) => object_lines(self@) == Ok::<Seq<Seq<char>>, DisassembleError>(
                    lines_view(lines@),
                ),
                Err(e) => object_lines(self@) == Err::<Seq<Seq<char>>, DisassembleError>(e),
            },
    {
        match self {
            Object::String(s) => {
                let lines = vec![s.clone()];
                assert(lines_view(lines@) =~= seq![s@]);
                Ok(lines)
            },
            Object::Function { identifier, param_count, code } => {
                let ins = disassemble(code.as_slice())?;
                let mut header = String::new();
                header.append("func<'");
                header.append(identifier.as_str());
                header.append("', ");
                push_decimal(&mut header, *param_count as u64);
                header.append(">");
                assert(header@ =~= function_header(identifier@, *param_count));
                let mut body = render_listing(ins.as_slice());
                let mut lines = vec![header];
                lines.append(&mut body);
                assert(lines_view(lines@) =~= seq![function_header(identifier@, *param_count)]
                    + listing(ins@));
                Ok(lines)
            },
        }
    }
}

impl Value {
    /// The lines that render this value; fails where a function body does
    /// not disassemble.
    pub fn display(&self) -> (r: Result<Vec<String>, DisassembleError>)
        ensures
            match r {
                Ok(lines) => value_lines(self@) == Ok::<Seq<Seq<char>>, DisassembleError>(
                    lines_view(lines@),
                ),
                Err(e) => value_lines(self@) == Err::<Seq<Seq<char>>, DisassembleError>(e),
            },
    {
        match self {
            Value::Int(i) => {
                let mut line = String::new();
                push_signed_decimal(&mut line, *i);
                let lines = vec![line];
                assert(lines_view(lines@) =~= seq![signed_decimal(*i as int)]);
                Ok(lines)
            },
            Value::Bool(b) => {
                let line = if *b { "true".to_owned() } else { "false".to_owned() };
                let lines = vec![line];
                assert(lines_view(lines@) =~= seq![if *b { "true"@ } else { "false"@ }]);
                Ok(lines)
            },
            Value::Object(o) => o.display(),
        }
    }
}

} // verus!
