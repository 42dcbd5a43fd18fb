use applib::adapter::{adapter_reply, load_config_data, supplier_request_url, AppState as AdapterState};
use applib::merge::{hotels_document, merge_hotel_fragments, supplier_document_url, supplier_hotels_fragment};
use applib::processor::{
    accommodation_url, accomodation_reply, adaptor_error, adaptor_status_error, choose_suppliers,
    exhausted_retries_message, find_response, select_suppliers, simulate_cpu_usage_async,
    supplier_hotel_entries, FindResponseParts, ProcessorCallError, ProcessorSettings, RetryState,
    RetryStep,
};
use applib::xml::XmlError;
use applib::supplier::{get_supplier_reply, has_xml_extension, supplier_reply, AppState as SupplierState, FileLoader, FileReadOutcome, SupplierCallError};

#[test]
fn supplier_url_joins_with_slash() {
    assert_eq!(supplier_document_url("http://h:1", "3"), "http://h:1/3");
}

#[test]
fn hotels_document_wraps_parts() {
    assert_eq!(hotels_document(&vec![]), "<Hotels></Hotels>");
    assert_eq!(hotels_document(&vec!["a".to_string(), "b".to_string()]), "<Hotels>ab</Hotels>");
}

#[test]
fn merge_adds_counts_and_wraps() {
    let (doc, n) = merge_hotel_fragments(&vec![("<x/>".to_string(), 2), ("<y/>".to_string(), 3)]);
    assert_eq!(doc, "<Hotels><x/><y/></Hotels>");
    assert_eq!(n, 5);
    let (_, n) = merge_hotel_fragments(&vec![("".to_string(), usize::MAX), ("".to_string(), 2)]);
    assert_eq!(n, 1);
}

#[test]
fn supplier_fragment_takes_the_hotels_elements() {
    let (text, n) = supplier_hotels_fragment("<Hotels><Hotel>1</Hotel></Hotels>").ok().unwrap();
    assert_eq!(text, "<Hotels><Hotel>1</Hotel></Hotels>");
    assert_eq!(n, 1);
}

#[test]
fn suppliers_go_round_the_list() {
    assert_eq!(select_suppliers(12, 7), vec![8, 9, 10, 1, 2, 3, 4, 5, 6, 7, 8, 9]);
    assert_eq!(select_suppliers(0, 3), Vec::<i32>::new());
    assert_eq!(select_suppliers(3, 0), vec![1, 2, 3]);
}

fn settings(min: u64, max: u64) -> ProcessorSettings {
    ProcessorSettings {
        adaptorhosturl: "http://a/".to_string(),
        min_noofsuppliers_forrandomness: min,
        max_noofsuppliers_forrandomness: max,
        retrysleep: 1,
        retrycount: 3,
        max_cpu_usage_in_milliseconds: 2,
        min_cpu_usage_in_milliseconds: 1,
        wthread: -1,
    }
}

#[test]
fn chosen_suppliers_are_a_rotation_of_allowed_length() {
    for _ in 0..50 {
        let s = choose_suppliers(&settings(2, 6));
        assert!(s.len() >= 2 && s.len() < 6);
        for k in 1..s.len() {
            assert_eq!(s[k], s[k - 1] % 10 + 1);
        }
    }
}

#[test]
fn retry_waits_grow_by_factorial_and_stop() {
    let mut r = RetryState::new(2, 3);
    let mut waits = Vec::new();
    while let RetryStep::Attempt = r.next_step() {
        assert!(r.failure_fits());
        waits.push(r.record_failure());
    }
    assert_eq!(waits, vec![2, 4, 12]);
    assert_eq!(r.sleep_secs, 48);
    assert!(matches!(RetryState::new(5, 0).next_step(), RetryStep::GiveUp));
    assert_eq!(exhausted_retries_message(), "Error in getting response from adaptor for supplier");
}

#[test]
fn retry_wait_overflow_is_detected() {
    let r = RetryState::new(u64::MAX, 2);
    assert!(!r.failure_fits());
}

#[test]
fn accommodation_url_appends_supplier() {
    assert_eq!(accommodation_url("http://x/api?supplier_id=", 10), "http://x/api?supplier_id=10");
    assert_eq!(accommodation_url("h", -3), "h-3");
}

fn error_text(e: &ProcessorCallError) -> String {
    match e {
        ProcessorCallError::Error(t) => t.clone(),
    }
}

#[test]
fn adaptor_errors_name_the_cause() {
    assert_eq!(error_text(&adaptor_error("boom")), "Error in getting response from adaptor for supplier boom");
    assert!(adaptor_status_error(200, "200 OK").is_none());
    let e = adaptor_status_error(404, "404 Not Found").unwrap();
    assert_eq!(error_text(&e), "Error in getting response from adaptor for supplier 404 Not Found");
    assert_eq!(ProcessorCallError::Error("x".to_string()).message(), "error `x`");
}

#[test]
fn supplier_entries_are_hotel_elements() {
    let (text, n) = supplier_hotel_entries("<Hotels><Hotel a=\"1\">p</Hotel><Hotel>q</Hotel></Hotels>").ok().unwrap();
    assert_eq!(text, "<Hotel a=\"1\">p</Hotel><Hotel>q</Hotel>");
    assert_eq!(n, 2);
    assert!(supplier_hotel_entries("<Hotels><Hotel>").is_err());
    assert!(matches!(supplier_hotel_entries("<Hotels><Hotel>"), Err(XmlError::Read(_))));
    assert!(matches!(supplier_hotel_entries("<Hotel a=1>x</Hotel>"), Err(XmlError::Attribute(_))));
    assert!(matches!(supplier_hotels_fragment("<Hotels a=1>x</Hotels>"), Err(XmlError::Attribute(_))));
}

#[test]
fn find_response_gathers_answers() {
    let mut parts = FindResponseParts::new(2);
    assert!(parts.absorb(Ok(("<b/>".to_string(), 1, 1))).is_ok());
    assert!(parts.absorb(Ok(("<a/>".to_string(), 2, 0))).is_ok());
    assert_eq!(parts.opdata, "<b/><a/>");
    assert_eq!(parts.resdata, vec!["<a/>".to_string(), "<b/>".to_string()]);
    assert_eq!(parts.counter, 3);
    match parts.absorb(Err("bad".to_string())) {
        Err(ProcessorCallError::Error(m)) => assert_eq!(m, "bad"),
        _ => panic!("expected an error"),
    }
    let doc = find_response(&parts);
    assert!(doc.starts_with("<HotelFindResponse time=\"0.21500015258789\" ipaddress=\"14.140.153.130\" count=\"3\">\r\n"));
    assert!(doc.ends_with("<Hotels><b/><a/>\r\n</Hotels>\r\n</HotelFindResponse>"));
    simulate_cpu_usage_async(&parts.resdata[0], 2, 1);
}

#[test]
fn accomodation_reply_statuses() {
    let ok = accomodation_reply(Ok("doc".to_string()));
    assert_eq!((ok.status, ok.content_type, ok.body.as_str()), (200, None, "doc"));
    let err = accomodation_reply(Err(ProcessorCallError::Error("x".to_string())));
    assert_eq!((err.status, err.body.as_str()), (500, "Error in processing request"));
}

#[test]
fn adapter_config_from_values() {
    let s: AdapterState = load_config_data(Some("-1".to_string()), Some("sup".to_string()), Some("8080".to_string())).unwrap_or_else(|_| panic!());
    assert_eq!((s.wthread, s.supplierhosname.as_str(), s.supplierport.as_str()), (-1, "sup", "8080"));
    assert_eq!(supplier_request_url(&s), "http://sup:8080/api/supplier?supplier_id=0");
    for (w, h, p) in [(None, Some("h"), Some("p")), (Some("4"), None, Some("p")), (Some("4"), Some("h"), None)] {
        let r = load_config_data(w.map(String::from), h.map(String::from), p.map(String::from));
        assert!(matches!(r, Err("minnoofsuppliers is not found in app.ini")));
    }
}

#[test]
fn adapter_reply_kinds() {
    let ok = adapter_reply(Ok("<x/>".to_string()));
    assert_eq!((ok.status, ok.content_type.as_deref(), ok.body.as_str()), (200, Some("application/xml"), "<x/>"));
    let err = adapter_reply(Err("down".to_string()));
    assert_eq!((err.status, err.content_type.as_deref(), err.body.as_str()), (500, Some("application/text"), "down"));
}

#[test]
fn supplier_replies() {
    let state = SupplierState { filecontent: vec!["<a/>".to_string(), "<b/>".to_string()] };
    let r = supplier_reply(&state, 1);
    assert_eq!((r.status, r.content_type.as_deref(), r.body.as_str()), (200, Some("application/xml"), "<b/>"));
    let r = supplier_reply(&state, 2);
    assert_eq!((r.status, r.content_type.as_deref(), r.body.as_str()), (404, Some("application/text"), "Supplier not found"));
    for _ in 0..20 {
        let r = get_supplier_reply(&state);
        assert_eq!(r.status, 200);
        assert!(state.filecontent.contains(&r.body));
    }
}

#[test]
fn xml_extension_like_path() {
    for name in ["a.xml", "sup_1_10001.xml", ".xml", "xml", "a.xmlx", "a.XML", "a.txt", "a.b.xml", "..xml"] {
        let expected = std::path::Path::new(name).extension().unwrap_or_default() == "xml";
        assert_eq!(has_xml_extension(name), expected, "name {:?}", name);
    }
}

#[test]
fn file_loader_keeps_order_and_stops_on_errors() {
    let mut l = FileLoader::new();
    assert!(FileLoader::wants(true, "a.xml"));
    assert!(!FileLoader::wants(false, "a.xml"));
    assert!(l.absorb(FileReadOutcome::Read("1".to_string())).is_ok());
    assert!(l.absorb(FileReadOutcome::Read("2".to_string())).is_ok());
    assert_eq!(l.filecontent, vec!["1".to_string(), "2".to_string()]);
    assert!(matches!(l.absorb(FileReadOutcome::OpenFailed), Err(SupplierCallError::FileOpenError)));
    assert!(matches!(l.absorb(FileReadOutcome::ReadFailed), Err(SupplierCallError::FileRedaError)));
    assert_eq!(SupplierCallError::FileRedaError.message(), "Error Reading file");
    assert_eq!(SupplierCallError::FileOpenError.message(), "Error Opening file");
}

#[test]
fn fragments_of_empty_documents_are_empty() {
    let (text, n) = supplier_hotels_fragment("").ok().unwrap();
    assert_eq!((text.as_str(), n), ("", 0));
    let (text, n) = supplier_hotel_entries("").ok().unwrap();
    assert_eq!((text.as_str(), n), ("", 0));
}
