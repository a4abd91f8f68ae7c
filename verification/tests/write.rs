use parser::mt940::format::{Mt940, StatementModel};
use parser::SupportedFormats;

const FULL: &str = "{1:F01BANKDEFFAXXX0000000000}{2:I940BANKNL2AXXXXN}{3:{108:REF}{4:\r\n:20:STAT1\r\n:21:REL\r\n:25:NL91ABNA0417164300\r\n:28C:1/1\r\n:13D:2510211200+0100\r\n:60F:C251020EUR10000,00\r\n:61:2510211021D250,00NTRFNONREF//BKNTRX0001\r\nsupplementary\r\n:86:Payment to supplier\r\nInv 1001\r\n:86:second tag\r\n:61:251021C1,00NMSC\r\n:62F:C251021EUR11239,50\r\n:64:C251021EUR11239,50\r\n:65:C251022EUR1,00\r\n:65:D251023EUR2,00\r\n-}{5:{CHK:ABC}";

#[test]
fn a_statement_text_is_written_block_by_block() {
    let m = Mt940::from_string(FULL).unwrap();
    assert_eq!(
        m.to_string().unwrap(),
        "{1:F01BANKDEFFAXXX0000000000}{2:I940BANKNL2AXXXXN}\r\n{3:{108:REF}\r\n{4::20:STAT1\r\n:21:REL\r\n:25:NL91ABNA0417164300\r\n:28C:1/1\r\n:13D:2510211200+0100\r\n:60F:C251020EUR10000,00\r\n:61:2510211021D250,00NTRFNONREF//BKNTRX0001\nsupplementary\r\n:86:Payment to supplier\nInv 1001\nsecond tag\r\n:61:251021C1,00NMSC\r\n:62F:C251021EUR11239,50\r\n:64:C251021EUR11239,50\r\n:65:C251022EUR1,00\r\n:65:D251023EUR2,00\r\n-}\r\n{5:{CHK:ABC}"
    );
}

#[test]
fn what_was_written_decodes_into_the_same_statement() {
    let first = Mt940::from_string(FULL).unwrap();
    let second = Mt940::from_string(&first.to_string().unwrap()).unwrap();
    assert_eq!(first, second);
    assert_eq!(first.to_string(), second.to_string());
}

#[test]
fn narrative_lines_that_look_like_tags_come_back_as_narrative() {
    let block = ":20:R\n:60F:C251020EUR1,\n:61:251021D1,A\n:86:one\n:86::20:not a reference\n:86:-\n:86:\n:62F:C251021EUR2,\n-";
    let first = StatementModel::parse(block).unwrap();
    assert_eq!(
        first.transactions[0].narrative,
        Some("one\n:20:not a reference\n-\n".to_string())
    );
    let text = first.to_mt_string();
    assert_eq!(
        text,
        ":20:R\r\n:25:\r\n:28C:\r\n:60F:C251020EUR1,\r\n:61:251021D1,A\r\n:86:one\r\n:86::20:not a reference\r\n:86:-\n\r\n:62F:C251021EUR2,\r\n"
    );
    let second = StatementModel::parse(&text).unwrap();
    assert_eq!(first, second);
}

#[test]
fn a_narrative_before_any_line_stays_with_the_other_tags() {
    let block = ":86:early\n:60F:C251020EUR1,\n:61:251021D1,A\n:62F:C251021EUR2,\n-";
    let first = StatementModel::parse(block).unwrap();
    assert_eq!(first.extras.len(), 1);
    let second = StatementModel::parse(&first.to_mt_string()).unwrap();
    assert_eq!(first, second);
    assert_eq!(second.transactions[0].narrative, None);
}

#[test]
fn formats_have_their_names() {
    assert_eq!(SupportedFormats::Mt940.to_string(), "mt940");
    assert_eq!(SupportedFormats::Camt053.to_string(), "camt053");
    assert_eq!(SupportedFormats::Xml.to_string(), "xml");
    assert_eq!(SupportedFormats::Csv.to_string(), "csv");
    for f in [
        SupportedFormats::Mt940,
        SupportedFormats::Camt053,
        SupportedFormats::Xml,
        SupportedFormats::Csv,
    ] {
        assert_eq!(SupportedFormats::from_name(&f.to_string()), Some(f));
        assert_eq!(f.to_string().parse::<SupportedFormats>(), Ok(f));
        assert_eq!(f.to_string().to_uppercase().parse::<SupportedFormats>(), Ok(f));
    }
    assert_eq!(SupportedFormats::from_name("Mt940"), Some(SupportedFormats::Mt940));
    assert_eq!(SupportedFormats::from_name("CAMT053"), Some(SupportedFormats::Camt053));
    assert_eq!(SupportedFormats::from_name("mt94"), None);
    assert_eq!(SupportedFormats::from_name("mt9400"), None);
    assert_eq!(SupportedFormats::from_name(""), None);
    assert_eq!(SupportedFormats::from_name("\u{4d}\u{54}940"), Some(SupportedFormats::Mt940));
    assert_eq!(SupportedFormats::from_name("-T940"), None);
    assert_eq!(
        "pdf".parse::<SupportedFormats>(),
        Err("Unknown format: pdf. Use 'mt940', 'camt053', 'xml' or 'csv'".to_string())
    );
}

#[test]
fn a_narrative_stays_one_tag_as_long_as_its_lines_continue_it() {
    let block = ":60F:C251020EUR1,\n:61:251021D1,A\n:86:one\ntwo\n:86:three\n\nfour\n:86::86:five\nsix\n:86:-\n:86:seven\n:62F:C251021EUR2,\n-";
    let first = StatementModel::parse(block).unwrap();
    assert_eq!(
        first.transactions[0].narrative,
        Some("one\ntwo\nthree\n\nfour\n:86:five\nsix\n-\nseven".to_string())
    );
    let text = first.to_mt_string();
    assert_eq!(
        text,
        ":20:\r\n:25:\r\n:28C:\r\n:60F:C251020EUR1,\r\n:61:251021D1,A\r\n:86:one\ntwo\nthree\n\nfour\r\n:86::86:five\nsix\r\n:86:-\nseven\r\n:62F:C251021EUR2,\r\n"
    );
    assert_eq!(StatementModel::parse(&text).unwrap(), first);
}
