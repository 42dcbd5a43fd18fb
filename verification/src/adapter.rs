//! Decisions of the supplier adapter: its configuration, the address of the
//! supplier service, and its reply.

use vstd::prelude::*;
use vstd::string::StringExecFns;
use crate::response::HttpReply;
use crate::text::parse_i16_spec;

verus! {

/// The query of an adapter request.
pub struct Info {
    pub supplier_id: String,
}

/// The adapter's configuration.
pub struct AppState {
    pub supplierhosname: String,
    pub supplierport: String,
    pub wthread: i16,
}

/// Builds the adapter's configuration from the values of the keys
/// `workerthread`, `supplierhostname` and `supplierport` of its
/// configuration file. A missing key is an error (with the message that the
/// service prints). A worker-thread value that is not an `i16` is left out by
/// `requires`: reading the configuration panics on it.
pub fn load_config_data(
    workerthread: Option<String>,
    supplierhostname: Option<String>,
    supplierport: Option<String>,
) -> (r: Result<AppState, &'static str>)
    requires
        workerthread matches Some(w) ==> parse_i16_spec(w@) is Some,
    ensures
        match (workerthread, supplierhostname, supplierport) {
            (Some(w), Some(h), Some(p)) => {
                &&& r matches Ok(state)
                &&& r->Ok_0.wthread == parse_i16_spec(w@)->0
                &&& r->Ok_0.supplierhosname@ == h@
                &&& r->Ok_0.supplierport@ == p@
            },
            _ => r matches Err(m) && m@ == "minnoofsuppliers is not found in app.ini"@,
        },
{
    let workthread: i16 = match workerthread {
        Some(value) => match crate::text::parse_i16(value.as_str()) {
            Some(n) => n,
            None => {
                assert(false);
                0
            },
        },
        None => return Err("minnoofsuppliers is not found in app.ini"),
    };
    let supplier_host_name = match supplierhostname {
        Some(value) => value,
        None => return Err("minnoofsuppliers is not found in app.ini"),
    };
    let supplier_port = match supplierport {
        Some(value) => value,
        None => return Err("minnoofsuppliers is not found in app.ini"),
    };
    Ok(AppState { supplierhosname: supplier_host_name, supplierport: supplier_port, wthread: workthread })
}

/// The address at which the adapter asks the supplier service for a
/// document.
pub fn supplier_request_url(state: &AppState) -> (url: String)
    ensures
        url@ == "http://"@ + state.supplierhosname@ + ":"@ + state.supplierport@
            + "/api/supplier?supplier_id=0"@,
{
    let mut url = String::new();
    url.append("http://");
    url.append(state.supplierhosname.as_str());
    url.append(":");
    url.append(state.supplierport.as_str());
    url.append("/api/supplier?supplier_id=0");
    url
}

/// The adapter's reply: the supplier's document as XML with status 200, or
/// the failure's message as text with status 500.
pub fn adapter_reply(outcome: Result<String, String>) -> (reply: HttpReply)
    ensures
        match outcome {
            Ok(body) => {
                &&& reply.status == 200
                &&& reply.content_type matches Some(t) && t@ == "application/xml"@
                &&& reply.body@ == body@
            },
            Err(message) => {
                &&& reply.status == 500
                &&& reply.content_type matches Some(t) && t@ == "application/text"@
                &&& reply.body@ == message@
            },
        },
{
    match outcome {
        Ok(body) => {
            let mut t = String::new();
            t.append("application/xml");
            HttpReply { status: 200, content_type: Some(t), body }
        },
        Err(message) => {
            let mut t = String::new();
            t.append("application/text");
            HttpReply { status: 500, content_type: Some(t), body: message }
        },
    }
}

} // verus!
