use uipilot::client::{
    get_cell, join_url, parse_i32_opt, parse_yn, Client, ClientStore, StoreError,
};

const HEADERS: [&str; 20] = [
    "ME",
    "Returns Printed?",
    "Returns Sent?",
    "ClientID",
    "ClientName",
    "EmailTemp1",
    "EmailTemp2",
    "Comment",
    "Estimate/Quarterlies",
    "TaxReturn",
    "Signature",
    "SignatureTemplate",
    "RequireKBA",
    "Invoice",
    "InvoiceAmount",
    "InvoiceTemplate",
    "Closer",
    "Pipeline",
    "Seal",
    "YearToSeal",
];

fn header_row() -> Vec<String> {
    HEADERS.iter().map(|s| s.to_string()).collect()
}

fn data_row(me: &str, id: &str, name: &str) -> Vec<String> {
    let mut row = vec![String::new(); 20];
    row[0] = me.to_string();
    row[1] = "Y".to_string();
    row[2] = "n".to_string();
    row[3] = id.to_string();
    row[4] = name.to_string();
    row[12] = "TRUE".to_string();
    row[18] = "2023".to_string();
    row
}

#[test]
fn yes_no_cells_accept_the_usual_spellings() {
    for yes in ["Y", "y", "YES", "yes", "TRUE", "true", "1", " y "] {
        assert!(parse_yn(yes), "{yes:?} should read as yes");
    }
    for no in ["", "N", "no", "0", "Yeah", "2", "11"] {
        assert!(!parse_yn(no), "{no:?} should read as no");
    }
}

#[test]
fn integer_cells_parse_with_sign_and_bounds() {
    assert_eq!(parse_i32_opt(" 42 "), Some(42));
    assert_eq!(parse_i32_opt("-17"), Some(-17));
    assert_eq!(parse_i32_opt("+3"), Some(3));
    assert_eq!(parse_i32_opt("2147483647"), Some(i32::MAX));
    assert_eq!(parse_i32_opt("-2147483648"), Some(i32::MIN));
    assert_eq!(parse_i32_opt("2147483648"), None);
    assert_eq!(parse_i32_opt(""), None);
    assert_eq!(parse_i32_opt("12x"), None);
}

#[test]
fn cells_are_trimmed_and_missing_cells_read_empty() {
    let row = vec!["  a  ".to_string(), "b".to_string()];
    assert_eq!(get_cell(&row, 0), "a");
    assert_eq!(get_cell(&row, 1), "b");
    assert_eq!(get_cell(&row, 7), "");
}

#[test]
fn store_loads_rows_until_first_blank_me() {
    let values = vec![
        header_row(),
        data_row("1", "SD3", "Acme"),
        data_row("2", "SD4", "Globex"),
        data_row("", "SD5", "never loaded"),
        data_row("4", "SD6", "after the blank, also never loaded"),
    ];
    let store = ClientStore::from_sheet_values(&values).unwrap();
    assert_eq!(store.clients.len(), 2);
    assert_eq!(store.clients[0].client_id, "SD3");
    assert_eq!(store.clients[0].client_name, "Acme");
    assert!(store.clients[0].returns_printed);
    assert!(!store.clients[0].returns_sent);
    assert!(store.clients[0].require_kba);
    assert_eq!(store.clients[0].seal, "2023");
    assert_eq!(store.clients[0].row_index, 2);
    assert_eq!(store.clients[1].client_id, "SD4");
    assert_eq!(store.clients[1].row_index, 3);
    // 1-based positions of "Seal" and "ME"
    assert_eq!(store.seal_column_index, 19);
    assert_eq!(store.me_column_index, 1);
}

#[test]
fn store_of_empty_matrix_is_empty() {
    let store = ClientStore::from_sheet_values(&[]).unwrap();
    assert_eq!(store.clients.len(), 0);
    assert_eq!(store.seal_column_index, 0);
    assert_eq!(store.me_column_index, 0);
}

#[test]
fn missing_header_names_itself() {
    let mut h = header_row();
    h.retain(|c| c != "Seal");
    let values = vec![h, data_row("1", "SD3", "Acme")];
    match ClientStore::from_sheet_values(&values) {
        Err(StoreError::MissingHeader(m)) => {
            assert_eq!(m, "Seal");
        },
        Ok(_) => panic!("a store without a Seal column loaded"),
    }
}

#[test]
fn missing_header_error_message_reads_well() {
    let e = StoreError::MissingHeader("Seal".to_string());
    assert_eq!(e.message(), "Missing expected header 'Seal'");
}

#[test]
fn headers_are_matched_trimmed() {
    let mut h = header_row();
    h[0] = "  ME  ".to_string();
    let values = vec![h, data_row("1", "SD3", "Acme")];
    let store = ClientStore::from_sheet_values(&values).unwrap();
    assert_eq!(store.clients.len(), 1);
}

#[test]
fn reload_replaces_the_store() {
    let mut store = ClientStore::new();
    assert_eq!(store.clients.len(), 0);
    let values = vec![header_row(), data_row("1", "SD3", "Acme")];
    store.reload_from_sheet(&values).unwrap();
    assert_eq!(store.clients.len(), 1);
    store.reload_from_sheet(&[header_row()]).unwrap();
    assert_eq!(store.clients.len(), 0);
}

#[test]
fn email_templates_keep_filled_slots_in_order() {
    let mut c = blank_client();
    c.email_temp1 = "  welcome  ".to_string();
    c.email_temp2 = "".to_string();
    assert_eq!(c.email_template(), vec!["welcome".to_string()]);
    c.email_temp2 = "reminder".to_string();
    assert_eq!(c.email_template(), vec!["welcome".to_string(), "reminder".to_string()]);
    c.email_temp1 = "   ".to_string();
    assert_eq!(c.email_template(), vec!["reminder".to_string()]);
}

#[test]
fn estimate_note_is_kept_when_filled() {
    let mut c = blank_client();
    assert_eq!(c.est_qtr().len(), 0);
    c.estimate_quarterlies = " Q2 ".to_string();
    assert_eq!(c.est_qtr(), vec!["Q2".to_string()]);
}

#[test]
fn urls_concatenate_base_id_suffix() {
    assert_eq!(
        join_url("https://portal.example/u/", "SD3", "/home"),
        "https://portal.example/u/SD3/home"
    );
}

fn blank_client() -> Client {
    Client {
        me: String::new(),
        returns_printed: false,
        returns_sent: false,
        client_id: String::new(),
        client_name: String::new(),
        email_temp1: String::new(),
        email_temp2: String::new(),
        comment: String::new(),
        estimate_quarterlies: String::new(),
        tax_return: String::new(),
        signature: String::new(),
        signature_template: String::new(),
        require_kba: false,
        invoice: String::new(),
        invoice_amount: String::new(),
        invoice_template: String::new(),
        closer: String::new(),
        pipeline: String::new(),
        seal: String::new(),
        year_to_seal: String::new(),
        row_index: 0,
    }
}
