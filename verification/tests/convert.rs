use parser::camt053::format::{
    Account, AccountId, Amount, Balance, BalanceType, BankToCustomerStatement, Camt053,
    CodeOrProprietary, DateAndDateTimeChoice, Entry, GenericAccountIdentification, GroupHeader,
    Statement,
};
use parser::converter::convert_streams::{
    choose_route, convert_camt053_to_mt940, convert_mt940_to_camt053, convert_streams,
    copy_input_to_output, join_statements, Payload, Route,
};
use parser::converter::to_camt053::{
    parse_balance, parse_entry, sequence_number_text, to_camt053,
};
use parser::converter::to_mt940::{find_balance, format_mt940_balance_line, to_mt940};
use parser::dates::Date;
use parser::errors::BalanceRole;
use parser::mt940::format::{DebitCredit, EntryMark, Mt940, StatementBalance, Transaction};
use parser::{ParserError, SupportedFormats};

const SIMPLE: &str = "{1:F01BANKDEFFAXXX0000000000}{2:I940BANKNL2AXXXXN}{4:\r\n:20:STAT202510210001\r\n:25:NL91ABNA0417164300\r\n:28C:00001/001\r\n:60F:C251020EUR10000,00\r\n:61:2510211021D250,00NTRFNONREF//BKNTRX0001\r\n:86:Payment to supplier Roga i Kopyta Inv 1001\r\n:62F:C251021EUR11239,50\r\n-}";

fn balance(code: &str, indicator: &str, ccy: &str, value: &str, date: &str) -> Balance {
    Balance {
        tp: Some(BalanceType {
            cd_or_prtry: Some(CodeOrProprietary { cd: Some(code.to_string()), prtry: None }),
        }),
        amt: Some(Amount { currency: Some(ccy.to_string()), value: Some(value.to_string()) }),
        cdt_dbt_ind: Some(indicator.to_string()),
        dt: Some(DateAndDateTimeChoice { dt: Some(date.to_string()), dt_tm: None }),
    }
}

fn entry(value: &str, indicator: &str) -> Entry {
    Entry {
        amt: Some(Amount { currency: Some("EUR".to_string()), value: Some(value.to_string()) }),
        cdt_dbt_ind: Some(indicator.to_string()),
        ..Default::default()
    }
}

fn document(stmts: Vec<Statement>) -> Camt053 {
    Camt053 {
        bk_to_cstmr_stmt: BankToCustomerStatement {
            grp_hdr: GroupHeader {
                msg_id: Some("MSG123456789".to_string()),
                cre_dt_tm: Some("2023-10-05T14:30:00Z".to_string()),
            },
            stmts,
        },
    }
}

fn statement(bal: Vec<Balance>, ntry: Vec<Entry>) -> Statement {
    Statement {
        id: Some("STMT001".to_string()),
        elctrnc_seq_nb: Some("1".to_string()),
        acct: Some(Account {
            id: Some(AccountId { iban: Some("DE89370400440532013000".to_string()), other: None }),
            ccy: Some("EUR".to_string()),
            name: Some("Test Account Name".to_string()),
        }),
        bal,
        ntry,
        ..Default::default()
    }
}

#[test]
fn test_convert_mt940_to_camt053() {
    let mt940_valid = Mt940::from_string(SIMPLE).unwrap();

    let result: Result<Camt053, ParserError> = to_camt053(&mt940_valid);
    let result = result.unwrap();

    // GroupHeader
    assert_eq!(result.bk_to_cstmr_stmt.grp_hdr.msg_id, Some("STAT202510210001".to_string()));

    // Statement
    let stmt = &result.bk_to_cstmr_stmt.stmts[0];
    assert_eq!(stmt.elctrnc_seq_nb, Some("1/1".to_string()));

    // Account
    let acct = stmt.acct.as_ref().unwrap();
    let acct_id = acct.id.as_ref().unwrap();
    assert_eq!(acct_id.iban, Some("NL91ABNA0417164300".to_string()));
    assert_eq!(acct.ccy, Some("EUR".to_string()));

    // Balances
    let bal1 = &stmt.bal[0];
    assert_eq!(
        bal1.tp.as_ref().unwrap().cd_or_prtry.as_ref().unwrap().cd,
        Some("OPBD".to_string())
    );
    assert_eq!(bal1.amt.as_ref().unwrap().currency, Some("EUR".to_string()));
    assert_eq!(bal1.amt.as_ref().unwrap().value, Some("10000,00".to_string()));
    assert_eq!(bal1.cdt_dbt_ind, Some("CRDT".to_string()));
    assert_eq!(bal1.dt.as_ref().unwrap().dt, Some("2025-10-20".to_string()));

    let bal2 = &stmt.bal[1];
    assert_eq!(
        bal2.tp.as_ref().unwrap().cd_or_prtry.as_ref().unwrap().cd,
        Some("CLBD".to_string())
    );
    assert_eq!(bal2.amt.as_ref().unwrap().currency, Some("EUR".to_string()));
    assert_eq!(bal2.amt.as_ref().unwrap().value, Some("11239,50".to_string()));
    assert_eq!(bal2.cdt_dbt_ind, Some("CRDT".to_string()));
    assert_eq!(bal2.dt.as_ref().unwrap().dt, Some("2025-10-21".to_string()));

    // Entry
    let entry = &stmt.ntry[0];
    assert_eq!(entry.amt.as_ref().unwrap().currency, Some("EUR".to_string()));
    assert_eq!(entry.amt.as_ref().unwrap().value, Some("250.00".to_string()));
    assert_eq!(entry.cdt_dbt_ind, Some("DBIT".to_string()));

    // TransactionDetails
    let tx_details = &entry.ntry_dtls[0].tx_dtls[0];
    assert_eq!(tx_details.amt.as_ref().unwrap().currency, Some("EUR".to_string()));
    assert_eq!(tx_details.amt.as_ref().unwrap().value, Some("250.00".to_string()));
    assert_eq!(
        tx_details.rmt_inf.as_ref().unwrap().ustrd[0],
        "Payment to supplier Roga i Kopyta Inv 1001".to_string()
    );
}

#[test]
fn the_document_holds_one_statement_and_nothing_it_was_not_given() {
    let c = convert_mt940_to_camt053(SIMPLE).unwrap();
    assert_eq!(c.bk_to_cstmr_stmt.grp_hdr.cre_dt_tm, None);
    assert_eq!(c.bk_to_cstmr_stmt.stmts.len(), 1);
    let stmt = &c.bk_to_cstmr_stmt.stmts[0];
    assert_eq!(stmt.id, None);
    assert_eq!(stmt.lgl_seq_nb, None);
    assert_eq!(stmt.fr_to_dt, None);
    assert_eq!(stmt.bal.len(), 2);
    assert_eq!(stmt.ntry.len(), 1);
    let e = &stmt.ntry[0];
    assert_eq!(e.sts, None);
    assert_eq!(e.val_dt, None);
    assert_eq!(e.bookg_dt, None);
    assert_eq!(e.bk_tx_cd, None);
    assert_eq!(e.ntry_dtls.len(), 1);
    assert_eq!(e.ntry_dtls[0].tx_dtls.len(), 1);
    assert_eq!(e.ntry_dtls[0].tx_dtls[0].refs, None);
    assert_eq!(e.ntry_dtls[0].tx_dtls[0].rltd_pties, None);
    assert_eq!(e.ntry_dtls[0].tx_dtls[0].rmt_inf.as_ref().unwrap().ustrd.len(), 1);
}

#[test]
fn available_balances_get_their_codes() {
    let text = "{1:F01BANKDEFFAXXX0000000000}{2:I940}{4:\n:21:REL\n:60F:D251020USD1,5\n:62F:C251021USD2,\n:64:C251021USD3,\n:65:D251022USD4,\n:65:C251023USD5,\n-}";
    let c = convert_mt940_to_camt053(text).unwrap();
    let stmt = &c.bk_to_cstmr_stmt.stmts[0];
    assert_eq!(stmt.id, Some("REL".to_string()));
    let codes: Vec<String> = stmt
        .bal
        .iter()
        .map(|b| b.tp.as_ref().unwrap().cd_or_prtry.as_ref().unwrap().cd.clone().unwrap())
        .collect();
    assert_eq!(codes, vec!["OPBD", "CLBD", "CLAV", "FWAV", "FWAV"]);
    assert_eq!(stmt.bal[0].cdt_dbt_ind, Some("DBIT".to_string()));
    assert_eq!(stmt.bal[0].amt.as_ref().unwrap().value, Some("1,5".to_string()));
    assert_eq!(stmt.bal[0].amt.as_ref().unwrap().currency, Some("USD".to_string()));
    assert_eq!(stmt.bal[3].dt.as_ref().unwrap().dt, Some("2025-10-22".to_string()));
    assert_eq!(stmt.bal[3].dt.as_ref().unwrap().dt_tm, None);
    assert_eq!(stmt.bal[4].amt.as_ref().unwrap().value, Some("5,".to_string()));
}

fn line(amount: &str, mark: EntryMark, narrative: Option<&str>) -> Transaction {
    Transaction {
        value_date: Date { year: 2025, month: 1, day: 2 },
        entry_date: None,
        mark,
        funds_code: None,
        amount: amount.to_string(),
        transaction_type: None,
        reference: None,
        supplementary: None,
        narrative: narrative.map(|n| n.to_string()),
        raw: format!("250102D{}", amount),
    }
}

fn entry_value(t: &Transaction) -> String {
    parse_entry(t).unwrap().amt.unwrap().value.unwrap()
}

#[test]
fn entry_amounts_get_two_decimals() {
    for (wire, value) in [
        ("250,00", "250.00"),
        ("250,", "250.00"),
        ("250", "250.00"),
        ("250,5", "250.50"),
        ("11239,50", "11239.50"),
        ("0,1", "0.10"),
        ("0001,5", "1.50"),
        ("000,", "0.00"),
        ("1,234", "1.23"),
        ("1,235", "1.24"),
        ("1,005", "1.01"),
        ("1,0049", "1.00"),
        ("0,999", "1.00"),
        ("9,999", "10.00"),
        ("99,995", "100.00"),
        ("1,994", "1.99"),
        ("123456789012345678901234567890,125", "123456789012345678901234567890.13"),
    ] {
        assert_eq!(entry_value(&line(wire, EntryMark::Debit, None)), value, "{}", wire);
    }
}

#[test]
fn entry_indicators_follow_the_mark() {
    for (mark, indicator) in [
        (EntryMark::Debit, "DBIT"),
        (EntryMark::Credit, "CRDT"),
        (EntryMark::ReversalDebit, "CRDT"),
        (EntryMark::ReversalCredit, "CRDT"),
    ] {
        let e = parse_entry(&line("1,00", mark, None)).unwrap();
        assert_eq!(e.cdt_dbt_ind, Some(indicator.to_string()));
        assert_eq!(e.amt.as_ref().unwrap().currency, Some("EUR".to_string()));
        assert_eq!(e.ntry_dtls[0].tx_dtls[0].rmt_inf, None);
    }
}

#[test]
fn a_narrative_becomes_one_line() {
    let e = parse_entry(&line("1,00", EntryMark::Debit, Some("one\ntwo\n\nthree"))).unwrap();
    assert_eq!(
        e.ntry_dtls[0].tx_dtls[0].rmt_inf.as_ref().unwrap().ustrd,
        vec!["one two  three".to_string()]
    );
}

#[test]
fn a_transaction_with_a_malformed_amount_fails_the_conversion() {
    let bad = line("1.00", EntryMark::Debit, None);
    assert_eq!(parse_entry(&bad), Err(ParserError::InvalidTransaction("250102D1.00".to_string())));
    let mut m = Mt940::from_string(SIMPLE).unwrap();
    m.statement.transactions.push(bad);
    assert_eq!(to_camt053(&m), Err(ParserError::InvalidTransaction("250102D1.00".to_string())));
}

fn wire_balance(date: Date, currency: Option<&str>, amount: &str) -> StatementBalance {
    StatementBalance {
        sign: DebitCredit::Debit,
        date,
        currency: currency.map(|c| c.to_string()),
        amount: amount.to_string(),
        role: BalanceRole::Opening,
        raw: "as it came".to_string(),
    }
}

#[test]
fn a_balance_is_written_and_read_again_on_its_way() {
    let good = wire_balance(Date { year: 2025, month: 10, day: 20 }, Some("EUR"), "7,10");
    assert_eq!(good.wire_chars().unwrap().iter().collect::<String>(), "D251020EUR7,10");
    let node = parse_balance(&good, BalanceRole::ClosingAvailable).unwrap();
    assert_eq!(node, balance("CLAV", "DBIT", "EUR", "7,10", "2025-10-20"));
}

#[test]
fn a_balance_that_cannot_be_written_or_read_again_fails_the_conversion() {
    let no_day = wire_balance(Date { year: 2025, month: 2, day: 30 }, Some("EUR"), "7,10");
    assert_eq!(no_day.wire_chars(), None);
    assert_eq!(
        parse_balance(&no_day, BalanceRole::Opening),
        Err(ParserError::InvalidBalance("as it came".to_string()))
    );
    let long_year = wire_balance(Date { year: 12025, month: 2, day: 3 }, Some("EUR"), "7,10");
    assert_eq!(
        parse_balance(&long_year, BalanceRole::Opening),
        Err(ParserError::InvalidBalance("as it came".to_string()))
    );
    let no_currency = wire_balance(Date { year: 2025, month: 2, day: 3 }, None, "7,10");
    assert_eq!(
        parse_balance(&no_currency, BalanceRole::Opening),
        Err(ParserError::InvalidBalance("D2502037,10".to_string()))
    );
    let bad_amount = wire_balance(Date { year: 2025, month: 2, day: 3 }, Some("EUR"), "7.10");
    assert_eq!(
        parse_balance(&bad_amount, BalanceRole::Opening),
        Err(ParserError::InvalidBalance("D250203EUR7.10".to_string()))
    );
    let mut m = Mt940::from_string(SIMPLE).unwrap();
    m.statement.forward_available.push(bad_amount);
    m.statement.transactions.push(line("x", EntryMark::Debit, None));
    assert_eq!(
        to_camt053(&m),
        Err(ParserError::InvalidBalance("D250203EUR7.10".to_string()))
    );
}

#[test]
fn a_year_outside_the_window_comes_back_in_another_century() {
    let old = wire_balance(Date { year: 1950, month: 2, day: 3 }, Some("EUR"), "7,10");
    let node = parse_balance(&old, BalanceRole::Opening).unwrap();
    assert_eq!(node.dt.unwrap().dt, Some("2050-02-03".to_string()));
}

#[test]
fn balance_nodes_are_written_as_wire_balances() {
    assert_eq!(
        format_mt940_balance_line(&balance("OPBD", "CRDT", "EUR", "1000.00", "2023-10-05")),
        "C231005EUR1000,00"
    );
    assert_eq!(
        format_mt940_balance_line(&balance("OPBD", "DBIT", "USD", "1500,50", "1999-12-31")),
        "D991231USD1500,50"
    );
    assert_eq!(
        format_mt940_balance_line(&balance("OPBD", "D", "USD", "1", "2023-10-05")),
        "D231005USD1"
    );
    assert_eq!(
        format_mt940_balance_line(&balance("OPBD", "C", "USD", "1", "2023-10-05")),
        "C231005USD1"
    );
    assert_eq!(
        format_mt940_balance_line(&balance("OPBD", "credit", "USD", "1", "2023-10-05")),
        "231005USD1"
    );
    assert_eq!(
        format_mt940_balance_line(&balance("OPBD", "CRDT", "USD", "1", "2023-10-05T14:30:00Z")),
        "C000000USD1"
    );
    assert_eq!(
        format_mt940_balance_line(&balance("OPBD", "CRDT", "USD", "1", "2023-02-29")),
        "C000000USD1"
    );
    assert_eq!(format_mt940_balance_line(&Balance::default()), "C000000EUR0,0");
    let with_time = Balance {
        dt: Some(DateAndDateTimeChoice { dt: None, dt_tm: Some("2024-02-29".to_string()) }),
        ..Default::default()
    };
    assert_eq!(format_mt940_balance_line(&with_time), "C240229EUR0,0");
}

#[test]
fn the_first_balance_with_the_code_is_found() {
    let stmt = statement(
        vec![
            balance("CLBD", "CRDT", "EUR", "1.00", "2023-10-05"),
            balance("OPBD", "CRDT", "EUR", "2.00", "2023-10-05"),
            balance("OPBD", "CRDT", "EUR", "3.00", "2023-10-05"),
            Balance::default(),
        ],
        vec![],
    );
    assert_eq!(find_balance(&stmt, BalanceRole::Opening), Ok(&stmt.bal[1]));
    assert_eq!(find_balance(&stmt, BalanceRole::Closing), Ok(&stmt.bal[0]));
    assert_eq!(
        find_balance(&stmt, BalanceRole::ClosingAvailable),
        Err(ParserError::MissingBalance(BalanceRole::ClosingAvailable))
    );
    assert_eq!(
        find_balance(&stmt, BalanceRole::ForwardAvailable),
        Err(ParserError::MissingBalance(BalanceRole::ForwardAvailable))
    );
}

#[test]
fn test_convert_camt053_to_mt940() {
    let camt053_valid = document(vec![statement(
        vec![
            balance("OPBD", "CRDT", "EUR", "1000.00", "2023-10-05"),
            balance("CLBD", "CRDT", "EUR", "1500.50", "2023-10-05"),
            balance("CLAV", "CRDT", "EUR", "1150.00", "2025-10-26"),
        ],
        vec![],
    )]);

    let expected_string = "{1:}{2:}\r\n{4::20:MSG123456789\r\n:21:STMT001\r\n:25:DE89370400440532013000\r\n:28C:1/1\r\n:60F:C231005EUR1000,00\r\n:62F:C231005EUR1500,50\r\n:64:C251026EUR1150,00\r\n-}\r\n".to_string();
    let result: Result<Vec<Mt940>, ParserError> = to_mt940(&camt053_valid);
    let result = result.unwrap();
    let mt940_str = result[0].to_string();
    assert_eq!(mt940_str.unwrap(), expected_string);
}

#[test]
fn entries_become_lines_with_placeholders() {
    let c = document(vec![statement(
        vec![
            balance("OPBD", "CRDT", "EUR", "1000.00", "2023-10-01"),
            balance("CLBD", "DBIT", "EUR", "1500.50", "2023-10-05"),
        ],
        vec![entry("100.00", "CRDT"), entry("50.5", "DBIT"), entry("7", "other")],
    )]);
    let ms = to_mt940(&c).unwrap();
    assert_eq!(ms.len(), 1);
    let s = &ms[0].statement;
    assert_eq!(s.transactions.len(), 3);
    let t = &s.transactions[0];
    assert_eq!(t.value_date, Date { year: 2023, month: 10, day: 5 });
    assert_eq!(t.entry_date, None);
    assert_eq!(t.mark, EntryMark::Credit);
    assert_eq!(t.funds_code, None);
    assert_eq!(t.amount, "100,00");
    assert_eq!(t.transaction_type, Some("NTRF".to_string()));
    assert_eq!(t.reference, Some("NONREF".to_string()));
    assert_eq!(t.supplementary, None);
    assert_eq!(t.narrative, Some("TRANSACTION DETAIL".to_string()));
    assert_eq!(t.raw, "231005C100,00NTRF//NONREF");
    assert_eq!(s.transactions[1].mark, EntryMark::Debit);
    assert_eq!(s.transactions[1].amount, "50,5");
    assert_eq!(s.transactions[2].mark, EntryMark::Credit);
    assert_eq!(s.transactions[2].amount, "7");
    assert_eq!(s.closing_balance.sign, DebitCredit::Debit);
    assert_eq!(
        ms[0].to_string().unwrap(),
        "{1:}{2:}\r\n{4::20:MSG123456789\r\n:21:STMT001\r\n:25:DE89370400440532013000\r\n:28C:1/1\r\n:60F:C231001EUR1000,00\r\n:61:231005C100,00NTRF//NONREF\r\n:86:TRANSACTION DETAIL\r\n:61:231005D50,5NTRF//NONREF\r\n:86:TRANSACTION DETAIL\r\n:61:231005C7NTRF//NONREF\r\n:86:TRANSACTION DETAIL\r\n:62F:D231005EUR1500,50\r\n-}\r\n"
    );
}

#[test]
fn the_statement_number_is_made_of_the_last_five_digits() {
    for (electronic, legal, number) in [
        (Some("1"), None, "1/1"),
        (Some("00001/001"), None, "01001/1"),
        (Some("A-1234567"), Some("9"), "34567/1"),
        (None, Some("42"), "42/1"),
        (None, None, "/1"),
        (Some("none"), Some("42"), "/1"),
        (Some("12345"), None, "12345/1"),
    ] {
        let mut stmt = statement(
            vec![
                balance("OPBD", "CRDT", "EUR", "1", "2023-10-01"),
                balance("CLBD", "CRDT", "EUR", "1", "2023-10-05"),
            ],
            vec![],
        );
        stmt.elctrnc_seq_nb = electronic.map(|s| s.to_string());
        stmt.lgl_seq_nb = legal.map(|s| s.to_string());
        let ms = to_mt940(&document(vec![stmt])).unwrap();
        assert_eq!(ms[0].statement.statement_number, number);
    }
}

#[test]
fn the_account_is_the_iban_or_else_the_other_identifier() {
    let balances = vec![
        balance("OPBD", "CRDT", "EUR", "1", "2023-10-01"),
        balance("CLBD", "CRDT", "EUR", "1", "2023-10-05"),
    ];
    let mut stmt = statement(balances, vec![]);
    stmt.id = None;
    stmt.acct = Some(Account {
        id: Some(AccountId {
            iban: None,
            other: Some(GenericAccountIdentification { id: Some("12345678".to_string()) }),
        }),
        ccy: None,
        name: None,
    });
    let mut c = document(vec![stmt]);
    c.bk_to_cstmr_stmt.grp_hdr.msg_id = None;
    let ms = to_mt940(&c).unwrap();
    assert_eq!(ms[0].statement.account, "12345678");
    assert_eq!(ms[0].statement.reference, "");
    assert_eq!(ms[0].statement.statement_id, None);
    c.bk_to_cstmr_stmt.stmts[0].acct = None;
    assert_eq!(to_mt940(&c).unwrap()[0].statement.account, "");
}

#[test]
fn a_statement_without_closing_balance_fails_the_whole_document() {
    let good = statement(
        vec![
            balance("OPBD", "CRDT", "EUR", "1", "2023-10-01"),
            balance("CLBD", "CRDT", "EUR", "1", "2023-10-05"),
        ],
        vec![],
    );
    let no_closing = statement(vec![balance("OPBD", "CRDT", "EUR", "1", "2023-10-01")], vec![]);
    let no_opening = statement(vec![balance("CLBD", "CRDT", "EUR", "1", "2023-10-01")], vec![]);
    let neither = statement(vec![balance("CLAV", "CRDT", "EUR", "1", "2023-10-01")], vec![]);
    let closing = Err(ParserError::MissingBalance(BalanceRole::Closing));
    assert_eq!(to_mt940(&document(vec![no_closing.clone()])), closing);
    assert_eq!(to_mt940(&document(vec![good.clone(), no_closing.clone()])), closing);
    assert_eq!(to_mt940(&document(vec![neither])), closing);
    assert_eq!(
        convert_camt053_to_mt940(&document(vec![good.clone(), no_closing])),
        Err(ParserError::MissingBalance(BalanceRole::Closing))
    );
    assert_eq!(
        to_mt940(&document(vec![good.clone(), no_opening])),
        Err(ParserError::MissingBalance(BalanceRole::Opening))
    );
    assert_eq!(to_mt940(&document(vec![good.clone(), good])).unwrap().len(), 2);
    assert_eq!(to_mt940(&document(vec![])), Ok(vec![]));
}

#[test]
fn a_mandatory_balance_that_does_not_decode_fails_the_document() {
    let bad_opening = statement(
        vec![
            balance("OPBD", "CRDT", "EUR", "1", "2023-10-01T00:00:00"),
            balance("CLBD", "CRDT", "EUR", "1", "2023-10-05"),
        ],
        vec![],
    );
    assert_eq!(
        to_mt940(&document(vec![bad_opening])),
        Err(ParserError::InvalidBalance("C000000EUR1".to_string()))
    );
    let bad_sign = statement(
        vec![
            balance("OPBD", "CRDT", "EUR", "1", "2023-10-01"),
            balance("CLBD", "plus", "EUR", "1", "2023-10-05"),
        ],
        vec![],
    );
    assert_eq!(to_mt940(&document(vec![bad_sign])), Err(ParserError::InvalidIndicator('2')));
    let bad_available = statement(
        vec![
            balance("OPBD", "CRDT", "EUR", "1", "2023-10-01"),
            balance("CLBD", "CRDT", "EUR", "1", "2023-10-05"),
            balance("CLAV", "CRDT", "euro", "1", "2023-10-05"),
        ],
        vec![],
    );
    assert_eq!(
        to_mt940(&document(vec![bad_available])),
        Err(ParserError::InvalidBalance("C231005euro1".to_string()))
    );
}

#[test]
fn forward_balances_are_found_wherever_they_stand() {
    let stmt = statement(
        vec![
            balance("FWAV", "CRDT", "EUR", "1", "2023-10-06"),
            balance("OPBD", "CRDT", "EUR", "1", "2023-10-01"),
            balance("CLBD", "CRDT", "EUR", "1", "2023-10-05"),
            balance("ITBD", "CRDT", "EUR", "x", "2023-10-05"),
            Balance::default(),
            balance("FWAV", "DBIT", "EUR", "3.5", "2023-10-08"),
        ],
        vec![],
    );
    let ms = to_mt940(&document(vec![stmt])).unwrap();
    let forward = &ms[0].statement.forward_available;
    assert_eq!(forward.len(), 2);
    assert_eq!(forward[0].raw, "C231006EUR1");
    assert_eq!(forward[1].raw, "D231008EUR3,5");
    assert_eq!(forward[1].role, BalanceRole::ForwardAvailable);
    assert_eq!(ms[0].statement.closing_available, None);
}

#[test]
fn whatever_does_not_convert_fails_the_document_in_its_turn() {
    let balances = |extra: Vec<Balance>| {
        let mut all = vec![
            balance("OPBD", "CRDT", "EUR", "1", "2023-10-01"),
            balance("CLBD", "CRDT", "EUR", "1", "2023-10-05"),
        ];
        all.extend(extra);
        all
    };
    let bad_forward = balance("FWAV", "CRDT", "EUR", "x", "2023-10-07");
    let bad_available = balance("CLAV", "CRDT", "EUR", "y", "2023-10-07");
    let good_forward = balance("FWAV", "CRDT", "EUR", "2", "2023-10-07");
    assert_eq!(
        to_mt940(&document(vec![statement(
            balances(vec![good_forward.clone(), bad_forward.clone()]),
            vec![]
        )])),
        Err(ParserError::InvalidBalance("C231007EURx".to_string()))
    );
    assert_eq!(
        to_mt940(&document(vec![statement(
            balances(vec![bad_forward.clone(), bad_available.clone()]),
            vec![]
        )])),
        Err(ParserError::InvalidBalance("C231007EURy".to_string()))
    );
    for (value, carried) in [("abc", "abc"), ("X12", "X12"), ("", ""), ("1.2.3", "1,2,3"), ("-5", "-5")] {
        assert_eq!(
            to_mt940(&document(vec![statement(
                balances(vec![bad_forward.clone(), bad_available.clone()]),
                vec![entry("1.00", "CRDT"), entry(value, "DBIT"), entry("zzz", "DBIT")]
            )])),
            Err(ParserError::InvalidTransaction(carried.to_string()))
        );
    }
    assert_eq!(
        to_mt940(&document(vec![statement(balances(vec![]), vec![Entry::default()])])),
        Err(ParserError::InvalidTransaction(String::new()))
    );
    let good = statement(balances(vec![good_forward]), vec![entry("1.00", "CRDT")]);
    let bad = statement(balances(vec![]), vec![entry("oops", "CRDT")]);
    assert_eq!(
        to_mt940(&document(vec![good.clone(), bad, good])),
        Err(ParserError::InvalidTransaction("oops".to_string()))
    );
}

#[test]
fn statements_are_written_with_a_blank_line_between_them() {
    let stmt = statement(
        vec![
            balance("OPBD", "CRDT", "EUR", "1", "2023-10-01"),
            balance("CLBD", "CRDT", "EUR", "1", "2023-10-05"),
        ],
        vec![],
    );
    let one = "{1:}{2:}\r\n{4::20:MSG123456789\r\n:21:STMT001\r\n:25:DE89370400440532013000\r\n:28C:1/1\r\n:60F:C231001EUR1\r\n:62F:C231005EUR1\r\n-}\r\n";
    let c = document(vec![stmt.clone(), stmt.clone(), stmt]);
    assert_eq!(convert_camt053_to_mt940(&c).unwrap(), format!("{}\n\n{}\n\n{}", one, one, one));
    assert_eq!(join_statements(&to_mt940(&c).unwrap()[..1].to_vec()), one);
    assert_eq!(join_statements(&vec![]), "");
}

#[test]
fn equal_formats_copy_the_input() {
    for format in [
        SupportedFormats::Csv,
        SupportedFormats::Xml,
        SupportedFormats::Camt053,
        SupportedFormats::Mt940,
    ] {
        let input = Payload::Text("not \u{e9}ven a {statement\r\n".to_string());
        assert_eq!(convert_streams(input.clone(), format, format), Ok(input.clone()));
        assert_eq!(copy_input_to_output(input.clone()), input);
        let document = Payload::Document(Camt053::default());
        assert_eq!(convert_streams(document.clone(), format, format), Ok(document));
    }
}

#[test]
fn the_two_conversions_are_chosen_by_the_formats() {
    let there = convert_streams(
        Payload::Text(SIMPLE.to_string()),
        SupportedFormats::Mt940,
        SupportedFormats::Camt053,
    )
    .unwrap();
    assert_eq!(there, Payload::Document(convert_mt940_to_camt053(SIMPLE).unwrap()));
    let back =
        convert_streams(there.clone(), SupportedFormats::Camt053, SupportedFormats::Mt940).unwrap();
    match (&there, &back) {
        (Payload::Document(c), Payload::Text(t)) => {
            assert_eq!(t, &convert_camt053_to_mt940(c).unwrap())
        }
        _ => panic!("a document goes in and a text comes out"),
    }
}

#[test]
fn other_pairs_of_formats_are_unsupported() {
    for (from, to) in [
        (SupportedFormats::Mt940, SupportedFormats::Xml),
        (SupportedFormats::Mt940, SupportedFormats::Csv),
        (SupportedFormats::Camt053, SupportedFormats::Xml),
        (SupportedFormats::Camt053, SupportedFormats::Csv),
        (SupportedFormats::Xml, SupportedFormats::Mt940),
        (SupportedFormats::Xml, SupportedFormats::Camt053),
        (SupportedFormats::Xml, SupportedFormats::Csv),
        (SupportedFormats::Csv, SupportedFormats::Mt940),
        (SupportedFormats::Csv, SupportedFormats::Camt053),
        (SupportedFormats::Csv, SupportedFormats::Xml),
    ] {
        assert_eq!(
            convert_streams(Payload::Text(SIMPLE.to_string()), from, to),
            Err(ParserError::UnsupportedConversion(from, to))
        );
    }
}

#[test]
fn a_payload_of_the_wrong_kind_is_invalid_input() {
    assert_eq!(
        convert_streams(
            Payload::Document(Camt053::default()),
            SupportedFormats::Mt940,
            SupportedFormats::Camt053
        ),
        Err(ParserError::InvalidInput)
    );
    assert_eq!(
        convert_streams(
            Payload::Text(SIMPLE.to_string()),
            SupportedFormats::Camt053,
            SupportedFormats::Mt940
        ),
        Err(ParserError::InvalidInput)
    );
}

#[test]
fn a_text_that_does_not_decode_fails_the_conversion() {
    assert_eq!(
        convert_mt940_to_camt053("{1:short}{2:x}{4:-}"),
        Err(ParserError::MalformedEnvelope)
    );
    assert_eq!(
        convert_streams(
            Payload::Text("{1:F01BANKDEFFAXXX0000000000}{2:I940}{4:\n:60F:C251020EUR1,\n-}".to_string()),
            SupportedFormats::Mt940,
            SupportedFormats::Camt053
        ),
        Err(ParserError::MissingBalance(BalanceRole::Closing))
    );
}

#[test]
fn text_to_document_to_text_keeps_what_both_carry() {
    let text = "{1:F01BANKDEFFAXXX0000000000}{2:I940}{4:\n:20:REF1\n:25:NL91ABNA0417164300\n:28C:12/3\n:60F:D251020USD10000,00\n:61:2510211021D250,00NTRFNONREF//BKNTRX0001\n:86:Payment\nfor services\n:61:251021RC99,5NCHG\n:61:251021C0012,345NTRF\n:62F:C251021USD11239,50\n:64:C251021USD11000,\n:65:C251022USD1,\n-}";
    let first = Mt940::from_string(text).unwrap();
    let document = to_camt053(&first).unwrap();
    let back = to_mt940(&document).unwrap();
    assert_eq!(back.len(), 1);
    let (a, b) = (&first.statement, &back[0].statement);
    assert_eq!(b.reference, a.reference);
    assert_eq!(b.account, a.account);
    assert_eq!(b.opening_balance, a.opening_balance);
    assert_eq!(b.closing_balance, a.closing_balance);
    assert_eq!(b.closing_available, a.closing_available);
    assert_eq!(b.forward_available, a.forward_available);
    assert_eq!(b.transactions.len(), 3);
    assert_eq!(b.transactions[0].amount, "250,00");
    assert_eq!(b.transactions[0].mark, EntryMark::Debit);
    assert_eq!(b.transactions[1].amount, "99,50");
    assert_eq!(b.transactions[1].mark, EntryMark::Credit);
    assert_eq!(b.transactions[2].amount, "12,35");
    assert_eq!(b.transactions[2].mark, EntryMark::Credit);
    assert_eq!(b.transactions[0].narrative, Some("TRANSACTION DETAIL".to_string()));
    assert_eq!(b.statement_number, "123/1");
}

#[test]
fn routes_are_chosen_by_the_formats() {
    let all = [
        SupportedFormats::Csv,
        SupportedFormats::Xml,
        SupportedFormats::Camt053,
        SupportedFormats::Mt940,
    ];
    for from in all {
        for to in all {
            let expected = if from == to {
                Ok(Route::Copy)
            } else if from == SupportedFormats::Mt940 && to == SupportedFormats::Camt053 {
                Ok(Route::TextToDocument)
            } else if from == SupportedFormats::Camt053 && to == SupportedFormats::Mt940 {
                Ok(Route::DocumentToText)
            } else {
                Err(ParserError::UnsupportedConversion(from, to))
            };
            assert_eq!(choose_route(from, to), expected);
        }
    }
}

#[test]
fn the_sequence_number_is_written_without_leading_zeros() {
    for (number, sequence) in [
        ("00001/001", "1/1"),
        ("1/1", "1/1"),
        ("98765/00123", "98765/123"),
        ("0010/0", "10/0"),
        ("000/000", "0/0"),
        ("00001", "1"),
        ("0", "0"),
        ("000", "0"),
        ("120", "120"),
        ("000000000000000000001234567890123/0", "1234567890123/0"),
        ("", ""),
        ("/", "/"),
        ("/001", "/001"),
        ("001/", "001/"),
        ("001/002/003", "001/002/003"),
        ("001//002", "001//002"),
        ("A001/002", "A001/002"),
        ("001/0B2", "001/0B2"),
        ("001 ", "001 "),
        (" 001", " 001"),
        ("-001", "-001"),
        ("00\u{661}", "00\u{661}"),
        ("001\n002", "001\n002"),
    ] {
        assert_eq!(sequence_number_text(number), sequence, "{:?}", number);
        let text = format!(
            "{{1:F01BANKDEFFAXXX0000000000}}{{2:I940}}{{4:\n:28C:{}\n:60F:C251020EUR1,\n:62F:C251021EUR2,\n-}}",
            number
        );
        if !number.contains('\n') {
            let m = Mt940::from_string(&text).unwrap();
            assert_eq!(m.statement.statement_number, number);
            let c = to_camt053(&m).unwrap();
            assert_eq!(c.bk_to_cstmr_stmt.stmts[0].elctrnc_seq_nb, Some(sequence.to_string()));
        }
    }
}
