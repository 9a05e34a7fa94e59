//! Handling one response on behalf of a request: the result a caller
//! shows for it.

use crate::mod_host_controller::resp_code_of;
use crate::strutil::parse_isize;
use crate::strutil::ws_from;
use vstd::prelude::*;
use vstd::string::StrSliceExecFns;
use vstd::string::StringExecFns;

verus! {

/// Acts on one complete host response; the front end interprets the
/// returned text to adjust itself.
pub trait ModhostResp {
    /// Handle the complete response line `resp`.
    fn act_on_response(&self, resp: &str) -> (r: String)
        requires
            resp@.len() >= 5,
            match resp_code_of(resp@) {
                Some(c) => isize::MIN <= c <= isize::MAX,
                None => false,
            },
        ensures
            r@.len() == 0,
    ;
}

/// The handler for a `param_get` request for one port's value.
pub struct ModhostGet {
    /// The instance the request was addressed to.
    instance: usize,
    /// The index of the port asked about.
    port_idx: usize,
}

impl ModhostResp for ModhostGet {
    /// Read the response's result code; whatever it says, there is no
    /// text to show, so the result is empty.
    fn act_on_response(&self, resp: &str) -> (r: String) {
        let resp_code = Self::get_resp_code(resp);
        if !self.validate_resp(resp_code) {
            // An error from the host calls for no action here.
            return String::new();
        }
        String::new()
    }
}

impl ModhostGet {
    /// A handler for the port at `port_idx` of instance `instance`.
    pub fn new(instance: usize, port_idx: usize) -> Self {
        ModhostGet { instance, port_idx }
    }

    /// The first number of a response is negative exactly when the host
    /// reports an error; a response is valid when it is not.
    pub fn validate_resp(&self, resp_code: isize) -> (r: bool)
        ensures
            r == (resp_code >= 0),
    {
        if 0 > resp_code {
            return false;
        }
        true
    }

    /// The result code of a response line: the first token after the
    /// five-character `resp ` prefix.
    pub fn get_resp_code(resp: &str) -> (r: isize)
        requires
            resp@.len() >= 5,
            match resp_code_of(resp@) {
                Some(c) => isize::MIN <= c <= isize::MAX,
                None => false,
            },
        ensures
            Some(r as int) == resp_code_of(resp@),
    {
        let len = resp.unicode_len();
        let rpart = resp.substring_char(5, len);
        let sp = ws_from(rpart, 0);
        let tok = rpart.substring_char(0, sp);
        match parse_isize(tok) {
            Some(v) => v,
            None => {
                proof {
                    assert(false);
                }
                0
            },
        }
    }
}

} // verus!
