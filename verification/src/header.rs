//! The banner shown when the program starts.

use vstd::prelude::*;
use vstd::string::StringExecFns;

verus! {

pub const HEADER: &'static str = r"
_____                       __      ____                                
/\  __`\          __        /\ \    /\  _`\                              
\ \ \/\ \  __  __/\_\    ___\ \ \/'\\ \ \/\_\    ___   _____   __  __    
\ \ \ \ \/\ \/\ \/\ \  /'___\ \ , < \ \ \/_/_  / __`\/\ '__`\/\ \/\ \   
 \ \ \\'\\ \ \_\ \ \ \/\ \__/\ \ \\`\\ \ \L\ \/\ \L\ \ \ \L\ \ \ \_\ \  
  \ \___\_\ \____/\ \_\ \____\\ \_\ \_\ \____/\ \____/\ \ ,__/\/`____ \ 
   \/__//_/\/___/  \/_/\/____/ \/_/\/_/\/___/  \/___/  \ \ \/  `/___/> \
                                                        \ \_\     /\___/
                                                         \/_/     \/__/ ";

pub const SEPARATOR: &'static str =
    r"----------------------------------------------------------------------";

pub const VERSION: &'static str = "0.1.0";

pub const AUTHOR: &'static str = "Jon Fast";

/// The full banner: the art, a separator, the version and author lines, and
/// a closing separator.
pub fn get_header() -> (r: String)
    ensures
        r@ == HEADER@ + "\n"@ + SEPARATOR@ + "\n"@ + "Version: "@ + VERSION@ + "\n"@ + "Author: "@
            + AUTHOR@ + "\n"@ + SEPARATOR@,
{
    let r = String::from_str(HEADER).concat("\n").concat(SEPARATOR).concat("\n").concat(
        "Version: ",
    ).concat(VERSION).concat("\n").concat("Author: ").concat(AUTHOR).concat("\n").concat(SEPARATOR);
    r
}

} // verus!
