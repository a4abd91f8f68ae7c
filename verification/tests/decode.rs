use parser::dates::{Date, MonthDay};
use parser::errors::{BalanceRole, BlockName};
use parser::mt940::blocks::split_to_blocks;
use parser::mt940::format::{
    DebitCredit, EntryMark, Mt940, StatementBalance, StatementModel, Tag, Transaction,
};
use parser::mt940::tokenizer::tokenize;
use parser::ParserError;

const SIMPLE: &str = "{1:F01BANKDEFFAXXX0000000000}{2:I940BANKNL2AXXXXN}{4:\r\n:20:STAT202510210001\r\n:25:NL91ABNA0417164300\r\n:28C:00001/001\r\n:60F:C251020EUR10000,00\r\n:61:2510211021D250,00NTRFNONREF//BKNTRX0001\r\n:86:Payment to supplier Roga i Kopyta Inv 1001\r\n:62F:C251021EUR11239,50\r\n-}";

fn tag(code: &str, body: &str) -> Tag {
    Tag { code: code.to_string(), body: body.to_string() }
}

#[test]
fn blocks_are_put_by_their_digit() {
    let blocks = split_to_blocks("{2:two}{1:one}{4:four-}{5:five}{3:three}");
    assert_eq!(
        blocks,
        vec![
            Some("one".to_string()),
            Some("two".to_string()),
            Some("three".to_string()),
            Some("four-".to_string()),
            Some("five".to_string()),
        ]
    );
}

#[test]
fn blocks_outside_one_to_five_are_passed_over() {
    let blocks = split_to_blocks("{0:zero}{6:six}{9:nine}{2:two}");
    assert_eq!(blocks, vec![None, Some("two".to_string()), None, None, None]);
}

#[test]
fn a_block_without_closing_brace_is_no_block() {
    assert_eq!(split_to_blocks("{1:abc"), vec![None, None, None, None, None]);
    assert_eq!(split_to_blocks(""), vec![None, None, None, None, None]);
    assert_eq!(
        split_to_blocks("x{1:}y{2:a{3:b}"),
        vec![Some(String::new()), Some("a{3:b".to_string()), None, None, None]
    );
}

#[test]
fn a_later_block_of_the_same_digit_wins() {
    let blocks = split_to_blocks("{1:first}{1:second}");
    assert_eq!(blocks[0], Some("second".to_string()));
}

#[test]
fn tags_keep_their_order_and_take_their_continuation_lines() {
    let tags = tokenize("junk\r\n:20:REF\n:86:line one\nline two\r\nline three\n:61:X\n-\n:25:late");
    assert_eq!(
        tags,
        vec![tag("20", "REF"), tag("86", "line one\nline two\nline three"), tag("61", "X")]
    );
}

#[test]
fn a_tag_code_is_two_digits_and_at_most_one_letter() {
    let tags = tokenize(":28C:1/1\n:2:no\n:ABC:no\n:123:no\n:60f:no\n:62F:yes");
    assert_eq!(
        tags,
        vec![tag("28C", "1/1\n:2:no\n:ABC:no\n:123:no\n:60f:no"), tag("62F", "yes")]
    );
}

#[test]
fn an_empty_block_has_no_tags() {
    assert_eq!(tokenize(""), Vec::<Tag>::new());
    assert_eq!(tokenize("no tag here\nnor here"), Vec::<Tag>::new());
    assert_eq!(tokenize(":20:"), vec![tag("20", "")]);
}

#[test]
fn balance_grammar() {
    let b = StatementBalance::parse("C251020EUR10000,00", BalanceRole::Opening).unwrap();
    assert_eq!(b.sign, DebitCredit::Credit);
    assert_eq!(b.date, Date { year: 2025, month: 10, day: 20 });
    assert_eq!(b.currency, Some("EUR".to_string()));
    assert_eq!(b.amount, "10000,00");
    assert_eq!(b.role, BalanceRole::Opening);
    assert_eq!(b.raw, "C251020EUR10000,00");
}

#[test]
fn two_digit_year_pivot() {
    let late = StatementBalance::parse("D690101USD1,", BalanceRole::Closing).unwrap();
    assert_eq!(late.date, Date { year: 2069, month: 1, day: 1 });
    assert_eq!(late.sign, DebitCredit::Debit);
    let early = StatementBalance::parse("D700101USD1,", BalanceRole::Closing).unwrap();
    assert_eq!(early.date, Date { year: 1970, month: 1, day: 1 });
    let first = StatementBalance::parse("C000229USD1,", BalanceRole::Closing).unwrap();
    assert_eq!(first.date, Date { year: 2000, month: 2, day: 29 });
    let last = StatementBalance::parse("C991231USD1,", BalanceRole::Closing).unwrap();
    assert_eq!(last.date, Date { year: 1999, month: 12, day: 31 });
}

#[test]
fn a_balance_with_a_wrong_sign_is_an_invalid_indicator() {
    assert_eq!(
        StatementBalance::parse("X251020EUR10000,00", BalanceRole::Opening),
        Err(ParserError::InvalidIndicator('X'))
    );
    assert_eq!(
        StatementBalance::parse("c251020EUR10000,00", BalanceRole::Opening),
        Err(ParserError::InvalidIndicator('c'))
    );
}

#[test]
fn a_malformed_balance_carries_its_body() {
    for body in [
        "",
        "C",
        "C25102",
        "C251020",
        "C251020EU",
        "C251020EUR",
        "C251020eur1,00",
        "C251020EUR,00",
        "C251020EUR1,0,0",
        "C251020EUR1.00",
        "C251020EUR1,00 ",
        "C25102AEUR1,00",
        "C251320EUR1,00",
        "C250230EUR1,00",
        "C250229EUR1,00",
        "C250431EUR1,00",
        "C250100EUR1,00",
        "C250001EUR1,00",
    ] {
        assert_eq!(
            StatementBalance::parse(body, BalanceRole::Opening),
            Err(ParserError::InvalidBalance(body.to_string())),
            "{}",
            body
        );
    }
}

#[test]
fn days_that_exist_are_read() {
    for (body, month, day) in [
        ("C240229EUR1,00", 2, 29),
        ("C250228EUR1,00", 2, 28),
        ("C250131EUR1,00", 1, 31),
        ("C250430EUR1,00", 4, 30),
        ("C251231EUR1,00", 12, 31),
    ] {
        let b = StatementBalance::parse(body, BalanceRole::Opening).unwrap();
        assert_eq!((b.date.month, b.date.day), (month, day));
    }
}

#[test]
fn transaction_grammar() {
    let t = Transaction::parse("2510211021D250,00NTRFNONREF//BKNTRX0001").unwrap();
    assert_eq!(t.value_date, Date { year: 2025, month: 10, day: 21 });
    assert_eq!(t.entry_date, Some(MonthDay { month: 10, day: 21 }));
    assert_eq!(t.mark, EntryMark::Debit);
    assert_eq!(t.funds_code, None);
    assert_eq!(t.amount, "250,00");
    assert_eq!(t.transaction_type, Some("NTRFNONREF".to_string()));
    assert_eq!(t.reference, Some("BKNTRX0001".to_string()));
    assert_eq!(t.supplementary, None);
    assert_eq!(t.narrative, None);
    assert_eq!(t.raw, "2510211021D250,00NTRFNONREF//BKNTRX0001");
}

#[test]
fn transaction_without_entry_date_and_with_funds_code() {
    let t = Transaction::parse("231225CF100,00NTRFCUSTREF").unwrap();
    assert_eq!(t.value_date, Date { year: 2023, month: 12, day: 25 });
    assert_eq!(t.entry_date, None);
    assert_eq!(t.mark, EntryMark::Credit);
    assert_eq!(t.funds_code, Some('F'));
    assert_eq!(t.amount, "100,00");
    assert_eq!(t.transaction_type, Some("NTR".to_string()));
    assert_eq!(t.reference, None);
    assert_eq!(t.supplementary, Some("FCUSTREF".to_string()));
}

#[test]
fn an_entry_date_that_does_not_exist_is_left_out() {
    let t = Transaction::parse("2502010230D1,00ABC").unwrap();
    assert_eq!(t.entry_date, None);
    assert_eq!(t.mark, EntryMark::Debit);
    assert_eq!(t.amount, "1,00");
    let leap = Transaction::parse("2402010229D1,00ABC").unwrap();
    assert_eq!(leap.entry_date, Some(MonthDay { month: 2, day: 29 }));
}

#[test]
fn reversal_marks_are_read() {
    let rd = Transaction::parse("231225RD1000,00NTRFREVREF123").unwrap();
    assert_eq!(rd.mark, EntryMark::ReversalDebit);
    assert_eq!(rd.funds_code, None);
    assert_eq!(rd.amount, "1000,00");
    let rc = Transaction::parse("231225RCX5,NTRF").unwrap();
    assert_eq!(rc.mark, EntryMark::ReversalCredit);
    assert_eq!(rc.funds_code, Some('X'));
    assert_eq!(rc.amount, "5,");
    let dr = Transaction::parse("231225DR5,NTRF").unwrap();
    assert_eq!(dr.mark, EntryMark::Debit);
    assert_eq!(dr.funds_code, Some('R'));
}

#[test]
fn the_remainder_of_a_line_is_split_at_the_first_double_slash() {
    let t = Transaction::parse("231225D1,00AB//REF//MORE").unwrap();
    assert_eq!(t.transaction_type, None);
    assert_eq!(t.reference, Some("REF//MORE".to_string()));
    assert_eq!(t.supplementary, None);
    let t = Transaction::parse("231225D1,00ABC//").unwrap();
    assert_eq!(t.transaction_type, Some("ABC".to_string()));
    assert_eq!(t.reference, Some(String::new()));
    let t = Transaction::parse("231225D1,00AB").unwrap();
    assert_eq!(t.transaction_type, None);
    assert_eq!(t.reference, None);
    assert_eq!(t.supplementary, Some("AB".to_string()));
    let t = Transaction::parse("231225D1,00ABC").unwrap();
    assert_eq!(t.transaction_type, Some("ABC".to_string()));
    assert_eq!(t.supplementary, None);
    let t = Transaction::parse("231225D1,00").unwrap();
    assert_eq!(t.transaction_type, None);
    assert_eq!(t.reference, None);
    assert_eq!(t.supplementary, None);
    let t = Transaction::parse("231225D1,00N/RF").unwrap();
    assert_eq!(t.transaction_type, Some("N/R".to_string()));
    assert_eq!(t.supplementary, Some("F".to_string()));
}

#[test]
fn a_malformed_line_carries_its_body() {
    for body in [
        "",
        "23122",
        "231325D1,00NTRF",
        "231225X1,00NTRF",
        "231225",
        "2312251226",
        "231225D",
        "231225DNTRF",
        "231225D,5NTRF",
        "231225D1,0,0NTRF",
        "231225R1,00NTRF",
        "231225d1,00NTRF",
    ] {
        assert_eq!(
            Transaction::parse(body),
            Err(ParserError::InvalidTransaction(body.to_string())),
            "{}",
            body
        );
    }
}

#[test]
fn a_statement_text_is_decoded() {
    let m = Mt940::from_string(SIMPLE).unwrap();
    assert_eq!(m.basic_header.application_identifier, "F");
    assert_eq!(m.basic_header.service_identifier, "01");
    assert_eq!(m.basic_header.lt_identifier, "BANKDEFFAXXX");
    assert_eq!(m.basic_header.session_number, "0000");
    assert_eq!(m.basic_header.sequence_number, "000000");
    assert_eq!(m.application_header, "I940BANKNL2AXXXXN");
    assert_eq!(m.user_header, None);
    assert_eq!(m.footer, None);
    let s = &m.statement;
    assert_eq!(s.reference, "STAT202510210001");
    assert_eq!(s.statement_id, None);
    assert_eq!(s.account, "NL91ABNA0417164300");
    assert_eq!(s.statement_number, "00001/001");
    assert_eq!(s.opening_balance.amount, "10000,00");
    assert_eq!(s.opening_balance.role, BalanceRole::Opening);
    assert_eq!(s.closing_balance.amount, "11239,50");
    assert_eq!(s.closing_balance.role, BalanceRole::Closing);
    assert_eq!(s.closing_balance.date, Date { year: 2025, month: 10, day: 21 });
    assert_eq!(s.closing_available, None);
    assert!(s.forward_available.is_empty());
    assert!(s.extras.is_empty());
    assert_eq!(s.transactions.len(), 1);
    assert_eq!(s.transactions[0].amount, "250,00");
    assert_eq!(
        s.transactions[0].narrative,
        Some("Payment to supplier Roga i Kopyta Inv 1001".to_string())
    );
}

#[test]
fn narratives_go_under_the_last_line_and_other_tags_to_the_side() {
    let block = ":86:before any line\n:20:R\n:21:ID\n:25:ACC\n:28:7\n:13D:2510211200+0100\n:60M:C251020EUR1,\n:61:251021D1,A\n:86:one\ncontinued\n:86:two\n:61:251021C2,B\n:34F:EURD5,\n:61:251022C3,C\n:86:three\n:62M:C251021EUR2,\n:64:D251021EUR3,\n:65:C251022EUR4,\n:65:C251023EUR5,\n:13D:again\n-";
    let s = StatementModel::parse(block).unwrap();
    assert_eq!(s.reference, "R");
    assert_eq!(s.statement_id, Some("ID".to_string()));
    assert_eq!(s.account, "ACC");
    assert_eq!(s.statement_number, "7");
    assert_eq!(
        s.extras,
        vec![
            tag("86", "before any line"),
            tag("13D", "2510211200+0100"),
            tag("34F", "EURD5,"),
            tag("13D", "again"),
        ]
    );
    assert_eq!(s.transactions.len(), 3);
    assert_eq!(s.transactions[0].narrative, Some("one\ncontinued\ntwo".to_string()));
    assert_eq!(s.transactions[1].narrative, None);
    assert_eq!(s.transactions[2].narrative, Some("three".to_string()));
    assert_eq!(s.transactions[1].mark, EntryMark::Credit);
    assert_eq!(s.opening_balance.amount, "1,");
    assert_eq!(s.closing_balance.amount, "2,");
    let available = s.closing_available.unwrap();
    assert_eq!(available.role, BalanceRole::ClosingAvailable);
    assert_eq!(available.sign, DebitCredit::Debit);
    assert_eq!(s.forward_available.len(), 2);
    assert_eq!(s.forward_available[0].amount, "4,");
    assert_eq!(s.forward_available[1].amount, "5,");
    assert_eq!(s.forward_available[1].role, BalanceRole::ForwardAvailable);
}

#[test]
fn a_later_tag_replaces_what_an_earlier_one_set() {
    let s = StatementModel::parse(
        ":20:A\n:20:B\n:60F:C251020EUR1,\n:60F:D251020EUR2,\n:62F:C251021EUR3,",
    )
    .unwrap();
    assert_eq!(s.reference, "B");
    assert_eq!(s.opening_balance.amount, "2,");
    assert_eq!(s.account, "");
    assert_eq!(s.statement_number, "");
    assert!(s.transactions.is_empty());
}

#[test]
fn a_statement_without_its_balances_is_refused() {
    assert_eq!(
        StatementModel::parse(":20:A\n:62F:C251021EUR3,"),
        Err(ParserError::MissingBalance(BalanceRole::Opening))
    );
    assert_eq!(
        StatementModel::parse(":20:A\n:60F:C251021EUR3,"),
        Err(ParserError::MissingBalance(BalanceRole::Closing))
    );
    assert_eq!(
        StatementModel::parse(""),
        Err(ParserError::MissingBalance(BalanceRole::Opening))
    );
}

#[test]
fn the_first_tag_that_does_not_decode_fails_the_statement() {
    assert_eq!(
        StatementModel::parse(":60F:C251020EUR1,\n:61:bad\n:62F:Z\n"),
        Err(ParserError::InvalidTransaction("bad".to_string()))
    );
    assert_eq!(
        StatementModel::parse(":60F:C251020EUR1,\n:62F:Z251020EUR1,\n:61:bad"),
        Err(ParserError::InvalidIndicator('Z'))
    );
    assert_eq!(
        StatementModel::parse(":60F:C251020EUR1,\n:62F:C251020EUR1,\n:65:C25"),
        Err(ParserError::InvalidBalance("C25".to_string()))
    );
}

#[test]
fn missing_blocks_are_named() {
    assert_eq!(
        Mt940::from_string("{2:I940BANKNL2AXXXXN}{4:\n:20:A\n-}"),
        Err(ParserError::MissingBlock(BlockName::BasicHeader))
    );
    assert_eq!(
        Mt940::from_string("{1:F01BANKDEFFAXXX0000000000}{4:\n:20:A\n-}"),
        Err(ParserError::MissingBlock(BlockName::ApplicationHeader))
    );
    assert_eq!(
        Mt940::from_string("{1:F01BANKDEFFAXXX0000000000}{2:I940BANKNL2AXXXXN}"),
        Err(ParserError::MissingBlock(BlockName::StatementBody))
    );
    assert_eq!(
        Mt940::from_string(""),
        Err(ParserError::MissingBlock(BlockName::BasicHeader))
    );
}

#[test]
fn a_basic_header_of_wrong_length_fails_the_whole_text() {
    assert_eq!(
        Mt940::from_string("{1:F01BANKDEFFAXXX000000000}{2:I940BANKNL2AXXXXN}{4:\n:20:A\n-}"),
        Err(ParserError::MalformedEnvelope)
    );
    assert_eq!(
        Mt940::from_string("{1:}{2:}{4:\n:60F:C251020EUR1,\n:62F:C251020EUR1,\n-}"),
        Err(ParserError::MalformedEnvelope)
    );
}

#[test]
fn optional_blocks_are_kept() {
    let text = "{1:F01BANKDEFFAXXX0000000000}{2:I940BANKNL2AXXXXN}{3:{108:MT940}{4:\n:60F:C251020EUR1,\n:62F:C251020EUR1,\n-}{5:{CHK:123456789ABC}";
    let m = Mt940::from_string(text).unwrap();
    assert_eq!(m.user_header, Some("{108:MT940".to_string()));
    assert_eq!(m.footer, Some("{CHK:123456789ABC".to_string()));
}
