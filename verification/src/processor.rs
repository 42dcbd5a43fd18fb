//! Decisions of the accommodation processor: which suppliers to ask, how to
//! retry an adaptor call, how the answers are gathered into one
//! `HotelFindResponse`, and what the service replies.

use vstd::prelude::*;
use vstd::string::StringExecFns;
use vstd::string::StringSliceAdditionalSpecFns;
use vstd::utf8::decode_utf8;
use crate::digest::simulate_cpu;
use crate::random::{random_u64_in, random_usize_below};
use crate::response::HttpReply;
use crate::text::{all_digits, digits_value, i32_to_decimal, push_decimal, signed_decimal, decimal, string_from_utf8};
use crate::xml::{extract_nodes_from_xml, extracts, nodes_bytes, texts_found_in, CopyView, ExtractError, XmlError};

verus! {

/// An element whose content is character data.
pub struct CData {
    pub value: String,
}

/// The error of a processor call.
pub enum ProcessorCallError {
    Error(String),
}

impl ProcessorCallError {
    /// The error's message: ``error `...` ``.
    pub fn message(&self) -> (m: String)
        ensures
            match self {
                ProcessorCallError::Error(t) => m@ == "error `"@ + t@ + "`"@,
            },
    {
        match self {
            ProcessorCallError::Error(t) => {
                let mut m = String::new();
                m.append("error `");
                m.append(t.as_str());
                m.append("`");
                m
            },
        }
    }
}

/// The settings of the processor that its decisions read.
pub struct ProcessorSettings {
    pub adaptorhosturl: String,
    pub min_noofsuppliers_forrandomness: u64,
    pub max_noofsuppliers_forrandomness: u64,
    pub retrysleep: u64,
    pub retrycount: u64,
    pub max_cpu_usage_in_milliseconds: u64,
    pub min_cpu_usage_in_milliseconds: u64,
    pub wthread: i16,
}

/// The supplier that stands at a position of the supplier list `1, ..., 10`.
pub open spec fn supplier_at(index: int) -> int {
    index % 10 + 1
}

/// The suppliers follow one another round the list from position `start`.
pub open spec fn goes_round_from(suppliers: Seq<i32>, start: int) -> bool {
    forall|k: int| 0 <= k < suppliers.len() ==> #[trigger] suppliers[k] == supplier_at(start + k)
}

/// `count` suppliers taken from the list `1, ..., 10`, starting at position
/// `start` and going round the list.
pub fn select_suppliers(count: u64, start: usize) -> (suppliers: Vec<i32>)
    requires
        start < 10,
    ensures
        suppliers@.len() == count,
        forall|k: int| 0 <= k < count ==> suppliers@[k] == supplier_at(start + k),
        forall|k: int| 0 <= k < count ==> 1 <= #[trigger] suppliers@[k] <= 10,
{
    let supplier_list: Vec<i32> = vec![1, 2, 3, 4, 5, 6, 7, 8, 9, 10];
    let mut supplier_from_index = start;
    let mut suppliers: Vec<i32> = Vec::new();
    let mut k: u64 = 0;
    while k < count
        invariant
            supplier_list@ == seq![1i32, 2, 3, 4, 5, 6, 7, 8, 9, 10],
            k <= count,
            suppliers@.len() == k,
            supplier_from_index < 10,
            supplier_from_index == (start + k) % 10,
            forall|j: int| 0 <= j < k ==> suppliers@[j] == supplier_at(start + j),
        decreases count - k,
    {
        assert(supplier_list@[supplier_from_index as int] == supplier_from_index + 1);
        suppliers.push(supplier_list[supplier_from_index]);
        proof {
            vstd::arithmetic::div_mod::lemma_add_mod_noop(start + k, 1, 10);
        }
        supplier_from_index = (supplier_from_index + 1) % supplier_list.len();
        k = k + 1;
    }
    suppliers
}

/// Picks the suppliers of one request at random: their number lies in the
/// configured range (upper end excluded), and they follow one another round
/// the list `1, ..., 10` from a random position.
pub fn choose_suppliers(settings: &ProcessorSettings) -> (suppliers: Vec<i32>)
    requires
        settings.min_noofsuppliers_forrandomness < settings.max_noofsuppliers_forrandomness,
    ensures
        settings.min_noofsuppliers_forrandomness <= suppliers@.len() < settings.max_noofsuppliers_forrandomness,
        exists|start: int| 0 <= start < 10 && #[trigger] goes_round_from(suppliers@, start),
{
    let max_no_of_supplier = random_u64_in(
        settings.min_noofsuppliers_forrandomness,
        settings.max_noofsuppliers_forrandomness,
    );
    let supplier_from_index = random_usize_below(10);
    let suppliers = select_suppliers(max_no_of_supplier, supplier_from_index);
    assert(goes_round_from(suppliers@, supplier_from_index as int));
    suppliers
}

/// `n!`.
pub open spec fn factorial(n: nat) -> nat
    decreases n,
{
    if n == 0 {
        1
    } else {
        n * factorial((n - 1) as nat)
    }
}

/// `(n + 1)! == (n + 1) * n!`, and factorials are at least one: each wait
/// is the one before times the number of failures so far plus one.
pub proof fn lemma_factorial_step(n: nat)
    ensures
        factorial(n + 1) == (n + 1) * factorial(n),
        factorial(n) >= 1,
    decreases n,
{
    if n > 0 {
        lemma_factorial_step((n - 1) as nat);
        let f = factorial((n - 1) as nat);
        assert(factorial(n) == n * f);
        assert(n * f >= 1) by (nonlinear_arith)
            requires n >= 1, f >= 1;
    }
    assert(factorial(n + 1) == (n + 1) * factorial(n));
    assert((n + 1) * factorial(n) >= factorial(n)) by (nonlinear_arith)
        requires factorial(n) >= 1;
}

/// Factorials never decrease, so neither do the waits between retries.
pub proof fn lemma_factorial_grows(m: nat, n: nat)
    requires
        m <= n,
    ensures
        factorial(m) <= factorial(n),
    decreases n - m,
{
    if m < n {
        lemma_factorial_grows(m, (n - 1) as nat);
        lemma_factorial_step((n - 1) as nat);
        let f = factorial((n - 1) as nat);
        assert(n * f >= f) by (nonlinear_arith)
            requires n >= 1, f >= 1;
    }
}

/// What to do before a call to the adaptor.
pub enum RetryStep {
    Attempt,
    GiveUp,
}

/// The retry state of the calls for one supplier: the configured first wait
/// and number of tries, the wait before the next try, and the tries left.
pub struct RetryState {
    pub base_sleep: u64,
    pub retry_count: u64,
    pub sleep_secs: u64,
    pub retries_left: u64,
}

impl RetryState {
    /// How many calls have failed so far.
    pub open spec fn failures(self) -> nat {
        (self.retry_count - self.retries_left) as nat
    }

    /// The wait doubles, then triples, and so on: after `f` failures the
    /// next wait is `base_sleep * (f + 1)!`.
    pub open spec fn wf(self) -> bool {
        &&& self.retries_left <= self.retry_count
        &&& self.sleep_secs == self.base_sleep * factorial(self.failures() + 1)
    }

    /// The state before the first call.
    pub fn new(retry_sleep: u64, retry_count: u64) -> (s: RetryState)
        ensures
            s.wf(),
            s.failures() == 0,
            s.base_sleep == retry_sleep,
            s.retry_count == retry_count,
            s.sleep_secs == retry_sleep,
    {
        let s = RetryState { base_sleep: retry_sleep, retry_count, sleep_secs: retry_sleep, retries_left: retry_count };
        assert(s.failures() == 0);
        assert(factorial(1) == 1) by {
            reveal_with_fuel(factorial, 2);
        }
        assert(retry_sleep * 1 == retry_sleep);
        s
    }

    /// Another call is made while tries are left.
    pub fn next_step(&self) -> (step: RetryStep)
        ensures
            (step is GiveUp) == (self.retries_left == 0),
    {
        if self.retries_left == 0 {
            RetryStep::GiveUp
        } else {
            RetryStep::Attempt
        }
    }

    /// Whether the wait after one more failure can be computed in a `u64`
    /// (where it cannot, the arithmetic overflows).
    pub fn failure_fits(&self) -> (fits: bool)
        requires
            self.wf(),
            self.retries_left > 0,
        ensures
            fits == (self.failures() + 2 <= u64::MAX && self.sleep_secs * (self.failures() + 2) <= u64::MAX),
    {
        let failed = self.retry_count - self.retries_left;
        if failed > u64::MAX - 2 {
            return false;
        }
        match self.sleep_secs.checked_mul(failed + 2) {
            Some(_) => true,
            None => false,
        }
    }

    /// Records a failed call: one try less, and the wait before the next try
    /// is returned; the wait after that grows by the next factor. The `k`-th
    /// wait is `base_sleep * k!`.
    pub fn record_failure(&mut self) -> (sleep: u64)
        requires
            old(self).wf(),
            old(self).retries_left > 0,
            old(self).failures() + 2 <= u64::MAX,
            old(self).sleep_secs * (old(self).failures() + 2) <= u64::MAX,
        ensures
            final(self).wf(),
            final(self).base_sleep == old(self).base_sleep,
            final(self).retry_count == old(self).retry_count,
            final(self).retries_left == old(self).retries_left - 1,
            final(self).failures() == old(self).failures() + 1,
            sleep == old(self).sleep_secs,
            sleep == final(self).base_sleep * factorial(final(self).failures()),
            final(self).sleep_secs == sleep * (final(self).failures() + 1),
            final(self).sleep_secs >= sleep,
    {
        let ghost f = self.failures();
        self.retries_left = self.retries_left - 1;
        let sleepval = self.sleep_secs;
        let factor = self.retry_count - self.retries_left + 1;
        assert(factor == f + 2);
        self.sleep_secs = self.sleep_secs * factor;
        proof {
            let b = self.base_sleep as int;
            let g = factorial(f + 1) as int;
            assert(factorial(f + 2) == (f + 2) * factorial(f + 1));
            assert(b * g * (f + 2) == b * ((f + 2) * g)) by (nonlinear_arith);
            assert(sleepval * factor >= sleepval) by (nonlinear_arith)
                requires factor >= 1;
        }
        sleepval
    }
}

/// What the call for one supplier answers after its last try failed.
pub fn exhausted_retries_message() -> (m: String)
    ensures
        m@ == "Error in getting response from adaptor for supplier"@,
{
    let mut m = String::new();
    m.append("Error in getting response from adaptor for supplier");
    m
}

/// The address of the adaptor for one supplier: the host URL followed by the
/// supplier's number.
pub fn accommodation_url(hostname: &str, supplier_id: i32) -> (url: String)
    ensures
        url@ == hostname@ + signed_decimal(supplier_id as int),
{
    let mut url = String::new();
    url.append(hostname);
    let id = i32_to_decimal(supplier_id);
    url.append(id.as_str());
    url
}

/// The error of a failed adaptor call, with what went wrong.
pub fn adaptor_error(detail: &str) -> (e: ProcessorCallError)
    ensures
        e == ProcessorCallError::Error(e->0) && e->0@ == "Error in getting response from adaptor for supplier "@ + detail@,
{
    let mut m = String::new();
    m.append("Error in getting response from adaptor for supplier ");
    m.append(detail);
    ProcessorCallError::Error(m)
}

/// A reply of the adaptor with a status other than 200 is an error, which
/// names the status (`status_text` is how the status displays).
pub fn adaptor_status_error(status: u16, status_text: &str) -> (r: Option<ProcessorCallError>)
    ensures
        (r is None) == (status == 200),
        r matches Some(e) ==> e->0@ == "Error in getting response from adaptor for supplier "@ + status_text@,
{
    if status != 200 {
        Some(adaptor_error(status_text))
    } else {
        None
    }
}

/// The `Hotel` elements of one supplier's answer as text, and how many there
/// are; a failure of the extraction is handed on. The
/// extracted bytes are always UTF-8, so their decoding does not fail.
pub fn supplier_hotel_entries(data: &str) -> (r: Result<(String, usize), XmlError>)
    ensures
        data@.len() == 0 ==> (r matches Ok((text, count)) && text@.len() == 0 && count == 0),
        exists|outcome| #[trigger] extracts(data@, "Hotel".spec_bytes(), outcome) && match outcome {
            Ok(cs) => r matches Ok((text, count))
                && text@ == decode_utf8(nodes_bytes("Hotel".spec_bytes(), cs))
                && count == cs.len(),
            Err(ExtractError::Attribute(m)) => r matches Err(XmlError::Attribute(t)) && t@ == m,
            Err(ExtractError::Read(m)) => r matches Err(XmlError::Read(t)) && t@ == m,
        },
        r matches Ok((text, count)) ==> exists|copies: Seq<CopyView>|
            copies.len() == count
            && text@ == decode_utf8(#[trigger] nodes_bytes("Hotel".spec_bytes(), copies))
            && texts_found_in(data.spec_bytes(), copies),
{
    let (bytes, count) = extract_nodes_from_xml(data, "Hotel")?;
    match string_from_utf8(bytes) {
        Ok(text) => Ok((text, count)),
        Err(e) => Err(XmlError::Utf8(e)),
    }
}

/// What the answers for the suppliers of one request have given so far: all
/// entries in the order they arrived, the entries of each supplier by its
/// position, and the number of hotels.
pub struct FindResponseParts {
    pub opdata: String,
    pub resdata: Vec<String>,
    pub counter: usize,
}

impl FindResponseParts {
    /// Nothing gathered yet, for `n` suppliers.
    pub fn new(n: usize) -> (p: FindResponseParts)
        ensures
            p.opdata@ == Seq::<char>::empty(),
            p.resdata@.len() == n,
            forall|i: int| 0 <= i < n ==> (#[trigger] p.resdata@[i])@ == Seq::<char>::empty(),
            p.counter == 0,
    {
        let mut resdata: Vec<String> = Vec::new();
        let mut i: usize = 0;
        while i < n
            invariant
                i <= n,
                resdata@.len() == i,
                forall|j: int| 0 <= j < i ==> (#[trigger] resdata@[j])@ == Seq::<char>::empty(),
            decreases n - i,
        {
            resdata.push(String::new());
            i = i + 1;
        }
        FindResponseParts { opdata: String::new(), resdata, counter: 0 }
    }

    /// Takes in the answer of one supplier: its entries, their number and
    /// the supplier's position. A failed answer fails the whole request.
    pub fn absorb(&mut self, outcome: Result<(String, usize, usize), String>) -> (r: Result<(), ProcessorCallError>)
        requires
            outcome matches Ok((_, c, i)) ==> i < old(self).resdata@.len() && old(self).counter + c <= usize::MAX,
        ensures
            match outcome {
                Ok((text, c, i)) => {
                    &&& r is Ok
                    &&& final(self).opdata@ == old(self).opdata@ + text@
                    &&& final(self).resdata@ == old(self).resdata@.update(i as int, text)
                    &&& final(self).counter == old(self).counter + c
                },
                Err(e) => {
                    &&& r == Err::<(), ProcessorCallError>(ProcessorCallError::Error(e))
                    &&& *final(self) == *old(self)
                },
            },
    {
        match outcome {
            Ok((text, c, i)) => {
                self.opdata.append(text.as_str());
                self.resdata.set(i, text);
                self.counter = self.counter + c;
                Ok(())
            },
            Err(e) => Err(ProcessorCallError::Error(e)),
        }
    }
}

/// The text of a `HotelFindResponse` holding `count` hotels whose entries
/// are `entries`.
pub open spec fn find_response_text(count: nat, entries: Seq<char>) -> Seq<char> {
    "<HotelFindResponse time=\"0.21500015258789\" ipaddress=\"14.140.153.130\" count=\""@
        + decimal(count)
        + "\">\r\n    <ArrivalDate>01/06/2024</ArrivalDate>\r\n    <DepartureDate>10/06/2024</DepartureDate>\r\n    <Currency>INR</Currency>\r\n    <GuestNationality>IN</GuestNationality>\r\n    <SearchSessionId>17168872488751716887248949665</SearchSessionId><Hotels>"@
        + entries
        + "\r\n</Hotels>\r\n</HotelFindResponse>"@
}

/// The count attribute of a response is the full decimal text of the number
/// of hotels: it reads back as that number, and two responses with the same
/// entries and different counts differ.
pub proof fn lemma_find_response_count(c1: nat, c2: nat, entries: Seq<char>)
    ensures
        ({
            let prefix = "<HotelFindResponse time=\"0.21500015258789\" ipaddress=\"14.140.153.130\" count=\""@;
            let t = find_response_text(c1, entries);
            let d = t.subrange(prefix.len() as int, prefix.len() + decimal(c1).len() as int);
            &&& all_digits(d)
            &&& digits_value(d) == c1
        }),
        find_response_text(c1, entries) == find_response_text(c2, entries) ==> c1 == c2,
{
    let prefix = "<HotelFindResponse time=\"0.21500015258789\" ipaddress=\"14.140.153.130\" count=\""@;
    let middle = "\">\r\n    <ArrivalDate>01/06/2024</ArrivalDate>\r\n    <DepartureDate>10/06/2024</DepartureDate>\r\n    <Currency>INR</Currency>\r\n    <GuestNationality>IN</GuestNationality>\r\n    <SearchSessionId>17168872488751716887248949665</SearchSessionId><Hotels>"@;
    let suffix = "\r\n</Hotels>\r\n</HotelFindResponse>"@;
    let d1 = decimal(c1);
    let d2 = decimal(c2);
    let t1 = find_response_text(c1, entries);
    let t2 = find_response_text(c2, entries);
    assert(t1 == prefix + d1 + middle + entries + suffix);
    assert(t2 == prefix + d2 + middle + entries + suffix);
    crate::text::lemma_decimal_value(c1);
    assert(t1.subrange(prefix.len() as int, prefix.len() + d1.len() as int) =~= d1);
    if t1 == t2 {
        assert(d1.len() == d2.len());
        assert(t2.subrange(prefix.len() as int, prefix.len() + d2.len() as int) =~= d2);
        crate::text::lemma_decimal_injective(c1, c2);
    }
}

/// The `HotelFindResponse` that the processor answers with.
pub fn find_response(parts: &FindResponseParts) -> (doc: String)
    ensures
        doc@ == find_response_text(parts.counter as nat, parts.opdata@),
{
    let mut resultdata = String::new();
    resultdata.append("<HotelFindResponse time=\"0.21500015258789\" ipaddress=\"14.140.153.130\" count=\"");
    push_decimal(&mut resultdata, parts.counter as u64);
    resultdata.append("\">\r\n    <ArrivalDate>01/06/2024</ArrivalDate>\r\n    <DepartureDate>10/06/2024</DepartureDate>\r\n    <Currency>INR</Currency>\r\n    <GuestNationality>IN</GuestNationality>\r\n    <SearchSessionId>17168872488751716887248949665</SearchSessionId><Hotels>");
    resultdata.append(parts.opdata.as_str());
    resultdata.append("\r\n</Hotels>\r\n</HotelFindResponse>");
    resultdata
}

/// The processor's CPU load: see `simulate_cpu`.
pub fn simulate_cpu_usage_async(xml_document: &String, max_cpu_usage_in_milliseconds: u64, min_cpu_usage_in_milliseconds: u64)
    requires
        min_cpu_usage_in_milliseconds < max_cpu_usage_in_milliseconds,
        vstd::utf8::encode_utf8(xml_document@).len() * 8 <= u64::MAX,
{
    simulate_cpu(xml_document, max_cpu_usage_in_milliseconds, min_cpu_usage_in_milliseconds);
}

/// The reply of the accommodation service: the response with status 200,
/// or status 500 with a fixed message.
pub fn accomodation_reply(outcome: Result<String, ProcessorCallError>) -> (reply: HttpReply)
    ensures
        match outcome {
            Ok(body) => reply.status == 200 && reply.content_type is None && reply.body@ == body@,
            Err(_) => reply.status == 500 && reply.content_type is None
                && reply.body@ == "Error in processing request"@,
        },
{
    match outcome {
        Ok(result) => HttpReply { status: 200, content_type: None, body: result },
        Err(_) => {
            let mut body = String::new();
            body.append("Error in processing request");
            HttpReply { status: 500, content_type: None, body }
        },
    }
}

} // verus!
