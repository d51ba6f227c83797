use vstd::prelude::*;

pub mod ast;
pub mod lexeme;
pub mod lexical;
pub mod parser;
pub mod rpn;
pub mod scanner;
pub mod token;
pub mod utils;

use crate::lexical::scanned;
use crate::scanner::{errors_view, scan, tokens_view, ScannerError};
use crate::utils::{join_vec_debug, joined_lines};

verus! {

/// Scans a source text. On success, a line for each token, in order, holding
/// its `Debug` text; otherwise the first lexical error.
pub fn run(source: String) -> (r: Result<String, ScannerError>)
    requires
        source@.len() < usize::MAX,
    ensures
        r is Ok <==> scanned(source@) is Ok,
        r matches Err(e) ==> e@ == scanned(source@)->Err_0[0],
        r matches Ok(text) ==> exists|lines: Seq<Seq<char>>|
            lines.len() == scanned(source@)->Ok_0.len() && text@ == joined_lines(lines),
{
    match scan(source) {
        Ok(wrappers) => {
            assert(tokens_view(wrappers@).len() > 0);
            assert(wrappers@.len() == tokens_view(wrappers@).len());
            Ok(join_vec_debug(&wrappers))
        },
        Err(mut errors) => {
            assert(errors_view(errors@).len() > 0);
            Err(errors.remove(0))
        },
    }
}

} // verus!
