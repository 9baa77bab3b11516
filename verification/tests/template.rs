//! What is found in a template.
use lnms_invoice::archive::{contents_of, len, name_of, names, open, read_zip_entry};
use lnms_invoice::store::Store;
use lnms_invoice::template::anchors::{anchors_of, XmlEvent};
use lnms_invoice::template::digest::hex_sha256;
use lnms_invoice::template::drawings::{
    collect_drawings, extract_drawing_target, extract_sheet_index,
};
use lnms_invoice::template::inspect::{classify, collect_cells, RawCell, RawSheet};
use lnms_invoice::template::media::collect_media;
use lnms_invoice::template::{
    column_letter, inspect, parse_drawing_anchors, write_template_version, CellKind, TemplateAudit,
};
use std::io::{Cursor, Write};
use umya_spreadsheet::Workbook;

const PNG_1X1: &[u8] = &[
    0x89, 0x50, 0x4E, 0x47, 0x0D, 0x0A, 0x1A, 0x0A, 0x00, 0x00, 0x00, 0x0D, 0x49, 0x48, 0x44,
    0x52, 0x00, 0x00, 0x00, 0x01, 0x00, 0x00, 0x00, 0x01, 0x08, 0x06, 0x00, 0x00, 0x00, 0x1F,
    0x15, 0xC4, 0x89, 0x00, 0x00, 0x00, 0x0D, 0x49, 0x44, 0x41, 0x54, 0x78, 0x9C, 0x62, 0x00,
    0x01, 0x00, 0x00, 0x05, 0x00, 0x01, 0x0D, 0x0A, 0x2D, 0xB4, 0x00, 0x00, 0x00, 0x00, 0x49,
    0x45, 0x4E, 0x44, 0xAE, 0x42, 0x60, 0x82,
];

/// A package with these entries.
fn zipped(entries: &[(&str, &[u8])]) -> Vec<u8> {
    let mut out = zip::ZipWriter::new(Cursor::new(Vec::new()));
    let opts =
        zip::write::FileOptions::default().compression_method(zip::CompressionMethod::Deflated);
    for (name, data) in entries {
        out.start_file(*name, opts).unwrap();
        out.write_all(data).unwrap();
    }
    out.finish().unwrap().into_inner()
}

fn minimal_xlsx() -> Vec<u8> {
    let mut book = Workbook::default();
    let sheet = book.new_sheet("Invoice").expect("new sheet");
    sheet.cell_mut("A1").set_value("湖南XX网络");
    sheet.cell_mut("B1").set_value_number(100);
    sheet.cell_mut("C1").set_formula("SUM(B1:B10)");
    let mut bytes: Vec<u8> = Vec::new();
    umya_spreadsheet::writer::xlsx::write_writer(&book, &mut bytes).expect("write xlsx");

    let mut zip_in = open(&bytes).unwrap();
    let mut zip_out = zip::ZipWriter::new(Cursor::new(Vec::new()));
    let opts =
        zip::write::FileOptions::default().compression_method(zip::CompressionMethod::Stored);
    for i in 0..len(&zip_in) {
        let name = name_of(&mut zip_in, i).unwrap();
        zip_out.start_file(&name, opts).unwrap();
        zip_out.write_all(&contents_of(&mut zip_in, i).unwrap()).unwrap();
    }
    zip_out.start_file("xl/media/image1.png", opts).unwrap();
    zip_out.write_all(PNG_1X1).unwrap();
    zip_out.finish().unwrap().into_inner()
}

/// The sheets of a package, as the spreadsheet reader hands them out.
fn sheets_of(xlsx: &[u8]) -> Vec<RawSheet> {
    let book = umya_spreadsheet::reader::xlsx::read_reader(Cursor::new(xlsx), true).unwrap();
    book.sheet_collection()
        .iter()
        .map(|s| RawSheet {
            name: s.name().to_string(),
            cells: s
                .cells()
                .iter()
                .map(|c| RawCell {
                    col: c.coordinate().col_num(),
                    row: c.coordinate().row_num(),
                    data_type: c.data_type().to_string(),
                    value: c.value().to_string(),
                    formula: c.formula().to_string(),
                })
                .collect(),
        })
        .collect()
}

fn audit_of(xlsx: &Vec<u8>, name: &str) -> TemplateAudit {
    inspect(xlsx, name, &sheets_of(xlsx)).expect("inspect")
}

#[test]
fn test_inspect_minimal_xlsx() {
    let xlsx = minimal_xlsx();
    let audit = audit_of(&xlsx, "minimal");

    assert_eq!(audit.template_name, "minimal");
    assert_eq!(audit.sha256.len(), 64);
    assert!(!audit.sheets.is_empty());
    assert!(audit.sheets.iter().any(|s| s == "Invoice"));

    let a1 = audit
        .cell_map
        .iter()
        .find(|c| c.sheet == "Invoice" && c.cell == "A1")
        .expect("A1 应存在");
    assert_eq!(a1.kind, CellKind::Text);
    assert_eq!(a1.value.as_deref(), Some("湖南XX网络"));

    let b1 = audit
        .cell_map
        .iter()
        .find(|c| c.sheet == "Invoice" && c.cell == "B1")
        .expect("B1 应存在");
    assert_eq!(b1.kind, CellKind::Number);
    assert_eq!(b1.value.as_deref(), Some("100"));

    let c1 = audit
        .cell_map
        .iter()
        .find(|c| c.sheet == "Invoice" && c.cell == "C1")
        .expect("C1 应存在");
    assert_eq!(c1.kind, CellKind::Formula);
    assert_eq!(c1.formula.as_deref(), Some("SUM(B1:B10)"));

    assert_eq!(audit.media.len(), 1);
    assert_eq!(audit.media[0].media_path, "xl/media/image1.png");
    assert_eq!(audit.media[0].width, Some(1));
    assert_eq!(audit.media[0].height, Some(1));
}

#[test]
fn test_write_template_version_roundtrip() {
    let xlsx = minimal_xlsx();
    let audit = audit_of(&xlsx, "minimal-roundtrip");
    let cells: Vec<(String, Option<String>, Option<String>)> = audit
        .cell_map
        .iter()
        .map(|c| (c.cell.clone(), c.value.clone(), c.formula.clone()))
        .collect();
    let cell_json = serde_json::to_string(&cells).unwrap();

    let mut store = Store::new();
    write_template_version(&mut store, &audit, &cell_json, "[]", "then");

    let row = store.find_template_version("minimal-roundtrip").expect("fetch");
    assert_eq!(row.template_name, "minimal-roundtrip");
    assert_eq!(row.template_sha256, audit.sha256);
    assert!(row.cell_map_json.contains("湖南XX网络"));
    assert!(row.cell_map_json.contains("SUM(B1:B10)"));
    assert_eq!(row.last_validated_at, "then");

    write_template_version(&mut store, &audit, &cell_json, "[]", "later");
    let count = store
        .list_template_versions()
        .iter()
        .filter(|t| t.template_name == "minimal-roundtrip")
        .count();
    assert_eq!(count, 1);
    let row = store.find_template_version("minimal-roundtrip").unwrap();
    assert_eq!(row.last_validated_at, "later");
    assert!(store.find_template_version("other").is_none());
}

#[test]
fn test_column_letter_edges() {
    assert_eq!(column_letter(0), "A");
    assert_eq!(column_letter(25), "Z");
    assert_eq!(column_letter(26), "AA");
    assert_eq!(column_letter(27), "AB");
    assert_eq!(column_letter(701), "ZZ");
    assert_eq!(column_letter(702), "AAA");
}

#[test]
fn column_letter_basic() {
    assert_eq!(column_letter(0), "A");
    assert_eq!(column_letter(25), "Z");
    assert_eq!(column_letter(26), "AA");
    assert_eq!(column_letter(27), "AB");
    assert_eq!(column_letter(701), "ZZ");
    assert_eq!(column_letter(702), "AAA");
}

#[test]
fn test_parse_drawing_anchors_two_cell() {
    let xml = r#"<?xml version="1.0"?>
    <xdr:wsDr xmlns:xdr="http://x">
      <xdr:twoCellAnchor>
        <xdr:from><xdr:col>5</xdr:col><xdr:row>19</xdr:row></xdr:from>
        <xdr:to><xdr:col>19</xdr:col><xdr:row>38</xdr:row></xdr:to>
      </xdr:twoCellAnchor>
      <xdr:oneCellAnchor>
        <xdr:from><xdr:col>0</xdr:col><xdr:row>0</xdr:row></xdr:from>
      </xdr:oneCellAnchor>
    </xdr:wsDr>"#;

    let anchors = parse_drawing_anchors(xml).expect("parse");
    assert_eq!(anchors.len(), 2);

    assert_eq!(anchors[0].from, Some((5, 19)));
    assert_eq!(anchors[0].to, Some((19, 38)));

    assert_eq!(anchors[1].from, Some((0, 0)));
    assert_eq!(anchors[1].to, None);
}

#[test]
fn entities_in_a_drawing_are_replaced() {
    let xml = "<a:twoCellAnchor><a:from><a:col>&#49;2</a:col><a:row>&#x33;</a:row></a:from></a:twoCellAnchor>";
    let anchors = parse_drawing_anchors(xml).unwrap();
    assert_eq!(anchors[0].from, Some((12, 3)));
}

#[test]
fn a_broken_drawing_is_refused() {
    let e = parse_drawing_anchors("<a:twoCellAnchor></b>").unwrap_err();
    assert!(e.message().starts_with("template error: drawing xml: "), "got: {}", e.message());
}

#[test]
fn events_without_a_parser() {
    let start = |n: &str| XmlEvent::Start(n.to_string());
    let end = |n: &str| XmlEvent::End(n.to_string());
    let text = |t: &str| XmlEvent::Text(t.to_string());
    let events = vec![
        start("xdr:twoCellAnchor"),
        start("xdr:from"),
        start("xdr:col"),
        text("4"),
        end("xdr:col"),
        start("xdr:row"),
        text("5"),
        end("xdr:row"),
        end("xdr:from"),
        end("xdr:twoCellAnchor"),
        start("xdr:col"),
        text("9"),
        end("xdr:col"),
    ];
    let anchors = anchors_of(&events);
    assert_eq!(anchors.len(), 1);
    assert_eq!(anchors[0].from, Some((4, 5)));
    assert_eq!(anchors[0].to, None);
}

#[test]
fn cells_are_classified_by_type_and_content() {
    assert_eq!(classify("n", "1", "A1+1"), CellKind::Formula);
    assert_eq!(classify("s", "x", ""), CellKind::Text);
    assert_eq!(classify("str", "", ""), CellKind::Text);
    assert_eq!(classify("inlineStr", "x", ""), CellKind::Text);
    assert_eq!(classify("n", "1", ""), CellKind::Number);
    assert_eq!(classify("b", "TRUE", ""), CellKind::Boolean);
    assert_eq!(classify("", "", ""), CellKind::Empty);
    assert_eq!(classify("e", "#REF!", ""), CellKind::Other);
}

#[test]
fn cells_are_listed_with_their_address() {
    let cell = |col: u32, row: u32, dt: &str, value: &str| RawCell {
        col,
        row,
        data_type: dt.to_string(),
        value: value.to_string(),
        formula: String::new(),
    };
    let sheet = RawSheet {
        name: "S".to_string(),
        cells: vec![cell(28, 4, "n", "7"), cell(1, 1, "", "")],
    };
    let mut out = vec![];
    collect_cells(&sheet, &mut out);
    let found: Vec<(&str, &str, Option<&str>)> = out
        .iter()
        .map(|c| (c.sheet.as_str(), c.cell.as_str(), c.value.as_deref()))
        .collect();
    assert!(found.contains(&("S", "AB4", Some("7"))), "got: {found:?}");
}

#[test]
fn digests_are_those_of_sha256() {
    assert_eq!(
        hex_sha256(b""),
        "e3b0c44298fc1c149afbf4c8996fb92427ae41e4649b934ca495991b7852b855"
    );
    assert_eq!(
        hex_sha256(b"abc"),
        "ba7816bf8f01cfea414140de5dae2223b00361a396177a9cb410ff61f20015ad"
    );
}

#[test]
fn pictures_are_measured() {
    let xlsx = zipped(&[
        ("xl/media/a.png", PNG_1X1),
        ("xl/media/b.bin", b"not a picture"),
        ("xl/other.png", PNG_1X1),
    ]);
    let media = collect_media(&xlsx).unwrap();
    assert_eq!(media.len(), 2);
    let a = media.iter().find(|m| m.media_path == "xl/media/a.png").unwrap();
    assert_eq!((a.width, a.height, a.bytes), (Some(1), Some(1), 67));
    assert_eq!(a.sha256, hex_sha256(PNG_1X1));
    let b = media.iter().find(|m| m.media_path == "xl/media/b.bin").unwrap();
    assert_eq!((b.width, b.height, b.bytes), (None, None, 13));
}

#[test]
fn sheets_are_found_by_their_relationships() {
    assert_eq!(extract_sheet_index("xl/worksheets/_rels/sheet3.xml.rels"), Some(3));
    assert_eq!(extract_sheet_index("sheet12.xml.rels"), Some(12));
    assert_eq!(extract_sheet_index("xl/worksheets/_rels/chart3.xml.rels"), None);
    assert_eq!(extract_sheet_index("xl/worksheets/_rels/sheet.xml.rels"), None);
    assert_eq!(extract_sheet_index("xl/worksheets/_rels/sheet3.xml"), None);
}

#[test]
fn the_first_drawing_of_a_sheet_counts() {
    let rels = "<Relationships>\n<Relationship Type=\"http://x/hyperlink\" Target=\"y\"/>\n  <Relationship Type=\"http://x/drawing\" Target=\"../drawings/drawing1.xml\"/>\n</Relationships>";
    assert_eq!(extract_drawing_target(rels).as_deref(), Some("../drawings/drawing1.xml"));
    assert_eq!(extract_drawing_target("<Relationships/>"), None);
}

#[test]
fn relationships_may_stand_on_one_line() {
    let rels = r#"<Relationships><Relationship Id="r1" Type="http://x/hyperlink" Target="https://e.com"/><Relationship Id="r2" Type="http://x/drawing" Target="../drawings/drawing1.xml"/></Relationships>"#;
    assert_eq!(extract_drawing_target(rels).as_deref(), Some("../drawings/drawing1.xml"));
}

#[test]
fn a_tag_ends_outside_of_its_values() {
    let inside = r#"<Relationship Id='a>b' Type="http://x/drawing" Target="../a>b.xml"/>"#;
    assert_eq!(extract_drawing_target(inside).as_deref(), Some("../a>b.xml"));
    let noted = "<?xml version=\"1.0\"?><!-- it's > <Relationship Type='/drawing' Target='no'/> -->\n<Relationship Type=\"http://x/drawing\" Target=\"yes\"/>";
    assert_eq!(extract_drawing_target(noted).as_deref(), Some("yes"));
    let data = "<a><![CDATA[ it's <Relationship Type='/drawing' Target='no'> ]]></a><Relationship Type='/drawing' Target='yes'/>";
    assert_eq!(extract_drawing_target(data).as_deref(), Some("yes"));
    let told = "<?x it's ?><Relationship Type='/drawing' Target='yes'/>";
    assert_eq!(extract_drawing_target(told).as_deref(), Some("yes"));
    let open = r#"<Relationship Type="http://x/drawing" Target="yes""#;
    assert_eq!(extract_drawing_target(open).as_deref(), Some("yes"));
}

#[test]
fn only_the_type_makes_a_drawing() {
    let named = r#"<Relationship Id="drawing" Type="http://x/image" Target="/drawing.png"/>"#;
    assert_eq!(extract_drawing_target(named), None);
    let hidden = r#"<Relationship Id=" Type='/drawing' " Type="http://x/image" Target="y"/>"#;
    assert_eq!(extract_drawing_target(hidden), None);
    let vml = r#"<Relationship Type="http://x/vmlDrawing" Target="y"/>"#;
    assert_eq!(extract_drawing_target(vml), None);
    let other = r#"<RelationshipX Type="http://x/drawing" Target="y"/>"#;
    assert_eq!(extract_drawing_target(other), None);
    let broken = "<Relationship\n  Target = '../d1.xml'\n\tType = \"http://x/drawing\"\n/>";
    assert_eq!(extract_drawing_target(broken).as_deref(), Some("../d1.xml"));
    assert_eq!(extract_drawing_target("<Relationship Type=\"http://x/drawing\" Target=\"y"), None);
}

const DRAWING: &str = "<xdr:wsDr><xdr:twoCellAnchor><xdr:from><xdr:col>1</xdr:col><xdr:row>2</xdr:row></xdr:from><xdr:to><xdr:col>3</xdr:col><xdr:row>4</xdr:row></xdr:to></xdr:twoCellAnchor></xdr:wsDr>";

#[test]
fn drawings_are_listed_by_sheet() {
    let rels = "<Relationship Type=\"http://x/drawing\" Target=\"../drawings/drawing1.xml\"/>";
    let xlsx = zipped(&[
        ("xl/worksheets/_rels/sheet1.xml.rels", rels.as_bytes()),
        ("xl/drawings/drawing1.xml", DRAWING.as_bytes()),
    ]);
    let found = collect_drawings(&xlsx, &vec!["First".to_string()]).unwrap();
    assert_eq!(found.len(), 1);
    assert_eq!(found[0].sheet, "First");
    assert_eq!(found[0].from_cell.as_deref(), Some("B3"));
    assert_eq!(found[0].to_cell.as_deref(), Some("D5"));
}

#[test]
fn packages_are_read_by_index_and_by_name() {
    let xlsx = zipped(&[("a", b"one"), ("b", b"two")]);
    let mut p = open(&xlsx).unwrap();
    assert_eq!(len(&p), 2);
    let all = names(&mut p).unwrap();
    assert_eq!(all, vec!["a".to_string(), "b".to_string()]);
    assert_eq!(contents_of(&mut p, 1).unwrap(), b"two");
    assert_eq!(read_zip_entry(&mut p, &all, "a").unwrap(), b"one");
    let e = read_zip_entry(&mut p, &all, "c").unwrap_err();
    assert!(e.message().starts_with("template error: "), "got: {}", e.message());
    assert!(open(&b"not a package".to_vec()).is_err());
}

#[test]
fn a_template_that_is_no_package_is_refused() {
    let bytes = b"not a package".to_vec();
    let none: Vec<RawSheet> = vec![];
    assert!(inspect(&bytes, "x", &none).is_err());
    assert!(collect_media(&bytes).is_err());
}
