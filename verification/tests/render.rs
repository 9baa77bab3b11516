//! Filling a template, replacing its picture, making a PDF of it.
use lnms_invoice::archive::{contents_of, len, name_of, names, open, read_zip_entry};
use lnms_invoice::render::fill::{fill_plan, CellValue};
use lnms_invoice::render::pdf::{
    conversion_error, file_stem, pdf_name, soffice_arguments, soffice_candidates, Conversion,
};
use lnms_invoice::render::{replace_media_in_xlsx, InvoiceData, PortLine};
use lnms_invoice::template::inspect;
use lnms_invoice::template::inspect::{RawCell, RawSheet};
use sha2::{Digest, Sha256};
use std::io::{Cursor, Write};
use umya_spreadsheet::Workbook;

fn written(book: &Workbook) -> Vec<u8> {
    let mut bytes: Vec<u8> = Vec::new();
    umya_spreadsheet::writer::xlsx::write_writer(book, &mut bytes).expect("write");
    bytes
}

fn build_template() -> Vec<u8> {
    let mut book = Workbook::default();
    let sheet = book.new_sheet("Invoice").expect("new sheet");
    for cell in ["D2", "D3", "D4", "D5", "D6", "A9", "B9", "C9", "D9", "E9", "F9"] {
        sheet.cell_mut(cell);
    }
    let png: &[u8] = &[
        0x89, 0x50, 0x4E, 0x47, 0x0D, 0x0A, 0x1A, 0x0A, 0x00, 0x00, 0x00, 0x0D, 0x49, 0x48, 0x44,
        0x52, 0x00, 0x00, 0x00, 0x01, 0x00, 0x00, 0x00, 0x01, 0x08, 0x06, 0x00, 0x00, 0x00, 0x1F,
        0x15, 0xC4, 0x89, 0x00, 0x00, 0x00, 0x0D, 0x49, 0x44, 0x41, 0x54, 0x78, 0x9C, 0x62, 0x00,
        0x01, 0x00, 0x00, 0x05, 0x00, 0x01, 0x0D, 0x0A, 0x2D, 0xB4, 0x00, 0x00, 0x00, 0x00, 0x49,
        0x45, 0x4E, 0x44, 0xAE, 0x42, 0x60, 0x82,
    ];
    inject_png(&written(&book), "xl/media/image1.png", png)
}

fn inject_png(xlsx: &Vec<u8>, target: &str, png: &[u8]) -> Vec<u8> {
    let mut zip_in = open(xlsx).unwrap();
    let mut zip_out = zip::ZipWriter::new(Cursor::new(Vec::new()));
    let opts =
        zip::write::FileOptions::default().compression_method(zip::CompressionMethod::Stored);
    for i in 0..len(&zip_in) {
        let name = name_of(&mut zip_in, i).unwrap();
        zip_out.start_file(&name, opts).unwrap();
        zip_out.write_all(&contents_of(&mut zip_in, i).unwrap()).unwrap();
    }
    zip_out.start_file(target, opts).unwrap();
    zip_out.write_all(png).unwrap();
    zip_out.finish().unwrap().into_inner()
}

fn entry(xlsx: &[u8], name: &str) -> Vec<u8> {
    let mut zip = zip::ZipArchive::new(Cursor::new(xlsx)).unwrap();
    let mut entry = zip.by_name(name).unwrap();
    let mut buf = Vec::new();
    std::io::Read::read_to_end(&mut entry, &mut buf).unwrap();
    buf
}

fn sha256(b: &[u8]) -> String {
    let mut h = Sha256::new();
    h.update(b);
    h.finalize().iter().map(|x| format!("{x:02x}")).collect()
}

fn sheets_of(xlsx: &[u8]) -> Vec<RawSheet> {
    let book = umya_spreadsheet::reader::xlsx::read_reader(Cursor::new(xlsx), true).unwrap();
    book.sheet_collection()
        .iter()
        .map(|s| RawSheet {
            name: s.name().to_string(),
            cells: s
                .cells()
                .iter()
                .map(|c| RawCell {
                    col: c.coordinate().col_num(),
                    row: c.coordinate().row_num(),
                    data_type: c.data_type().to_string(),
                    value: c.value().to_string(),
                    formula: c.formula().to_string(),
                })
                .collect(),
        })
        .collect()
}

fn data() -> InvoiceData {
    InvoiceData {
        invoice_no: "INV-2026-08-0001".into(),
        customer_name: "湖南XX网络".into(),
        period_label: "2026-08".into(),
        ports: vec![
            PortLine {
                label: "华为BGP 3段".into(),
                mbps_95th: Some(850),
                machine_rent: false,
                machine_hosting: true,
            },
            PortLine {
                label: "联通BGP 1段".into(),
                mbps_95th: Some(420),
                machine_rent: true,
                machine_hosting: false,
            },
        ],
        total_cents: 1270000,
        currency: "CNY".into(),
    }
}

#[test]
fn test_fill_template_writes_invoice_and_ports() {
    let template = build_template();
    let mut book =
        umya_spreadsheet::reader::xlsx::read_reader(Cursor::new(&template), true).unwrap();
    let sheet = book.sheet_by_name_mut("Invoice").unwrap();
    for w in fill_plan(&data()) {
        let cell = sheet.cell_mut(w.cell.as_str());
        match w.value {
            CellValue::Text(t) => {
                cell.set_value(t);
            }
            CellValue::Cents(n) => {
                cell.set_value_number(n as f64 / 100.0);
            }
            CellValue::Whole(n) => {
                cell.set_value_number(n as f64);
            }
            CellValue::Flag(b) => {
                cell.set_value_bool(b);
            }
            CellValue::Blank => {
                cell.set_blank();
            }
        }
    }
    let filled = written(&book);

    let audit = inspect(&filled, "filled", &sheets_of(&filled)).expect("inspect");
    let lookup = |cell: &str| -> Option<String> {
        audit.cell_map.iter().find(|c| c.cell == cell).and_then(|c| c.value.clone())
    };

    assert_eq!(lookup("D2").as_deref(), Some("INV-2026-08-0001"));
    assert_eq!(lookup("D3").as_deref(), Some("湖南XX网络"));
    assert_eq!(lookup("D4").as_deref(), Some("2026-08"));
    assert_eq!(lookup("D5").as_deref(), Some("12700"));
    assert_eq!(lookup("D6").as_deref(), Some("CNY"));
    assert_eq!(lookup("A9").as_deref(), Some("华为BGP 3段"));
    assert_eq!(lookup("B9").as_deref(), Some("850"));
    assert_eq!(lookup("A10").as_deref(), Some("联通BGP 1段"));
    assert_eq!(lookup("B10").as_deref(), Some("420"));
}

#[test]
fn cells_are_filled_row_by_row() {
    let mut d = data();
    d.ports[1].mbps_95th = None;
    let plan = fill_plan(&d);
    let cells: Vec<&str> = plan.iter().map(|w| w.cell.as_str()).collect();
    assert_eq!(
        cells,
        vec![
            "D2", "D3", "D4", "D5", "D6", "A9", "B9", "C9", "D9", "E9", "F9", "A10", "B10", "C10",
            "D10", "E10", "F10"
        ]
    );
    assert!(matches!(plan[3].value, CellValue::Cents(1270000)));
    assert!(matches!(plan[6].value, CellValue::Whole(850)));
    assert!(matches!(plan[7].value, CellValue::Blank));
    assert!(matches!(plan[9].value, CellValue::Flag(false)));
    assert!(matches!(plan[10].value, CellValue::Flag(true)));
    assert!(matches!(plan[12].value, CellValue::Blank));
}

#[test]
fn test_replace_media_in_xlsx_swaps_png_bytes() {
    let xlsx = build_template();

    let new_png: &[u8] = &[
        0x89, 0x50, 0x4E, 0x47, 0x0D, 0x0A, 0x1A, 0x0A, 0x00, 0x00, 0x00, 0x0D, 0x49, 0x48, 0x44,
        0x52, 0x00, 0x00, 0x00, 0x02, 0x00, 0x00, 0x00, 0x02, 0x08, 0x06, 0x00, 0x00, 0x00, 0xF4,
        0x78, 0xD4, 0xFA, 0x00, 0x00, 0x00, 0x16, 0x49, 0x44, 0x41, 0x54, 0x78, 0x9C, 0x62, 0xFC,
        0xCF, 0xC0, 0xF0, 0x9F, 0x81, 0x81, 0x21, 0x00, 0x04, 0x00, 0x01, 0x5C, 0xCD, 0xFF, 0x69,
        0x00, 0x00, 0x00, 0x00, 0x49, 0x45, 0x4E, 0x44, 0xAE, 0x42, 0x60, 0x82,
    ];
    let new_sha = sha256(new_png);

    let replaced =
        replace_media_in_xlsx(&xlsx, "image1.png", &new_png.to_vec()).expect("replace");

    let buf = entry(&replaced, "xl/media/image1.png");
    assert_eq!(sha256(&buf), new_sha);
}

#[test]
fn test_replace_media_adds_when_missing() {
    let mut book = Workbook::default();
    book.new_sheet("S").expect("new sheet");
    let xlsx = written(&book);

    let png = b"placeholder-bytes";
    let replaced = replace_media_in_xlsx(&xlsx, "new.png", &png.to_vec()).expect("replace");

    let buf = entry(&replaced, "xl/media/new.png");
    assert_eq!(buf, png);
}

#[test]
fn replacing_a_picture_keeps_everything_else() {
    let xlsx = build_template();
    let replaced = replace_media_in_xlsx(&xlsx, "image1.png", &b"new".to_vec()).unwrap();
    let mut before = open(&xlsx).unwrap();
    let mut after = open(&replaced).unwrap();
    let all = names(&mut before).unwrap();
    let kept = names(&mut after).unwrap();
    assert_eq!(all.len(), kept.len());
    for n in &all {
        if n != "xl/media/image1.png" {
            assert_eq!(
                read_zip_entry(&mut before, &all, n).unwrap(),
                read_zip_entry(&mut after, &kept, n).unwrap()
            );
        }
    }
    assert!(replace_media_in_xlsx(&b"junk".to_vec(), "a.png", &b"x".to_vec()).is_err());
}

#[test]
fn names_of_files() {
    assert_eq!(file_stem("/a/b/INV-1.xlsx").as_deref(), Some("INV-1"));
    assert_eq!(file_stem("/a/b/").as_deref(), Some("b"));
    assert_eq!(file_stem(".hidden").as_deref(), Some(".hidden"));
    assert_eq!(file_stem("a.tar.gz").as_deref(), Some("a.tar"));
    assert_eq!(file_stem("/").as_deref(), None);
    assert_eq!(file_stem("a/..").as_deref(), None);
    assert_eq!(pdf_name("/work/INV-1.xlsx").as_deref(), Some("INV-1.pdf"));
    for p in ["/a/b/INV-1.xlsx", "/a/b/", ".hidden", "a.tar.gz", "/", "a/..", "a/./", ""] {
        let std_stem = std::path::Path::new(p).file_stem().map(|s| s.to_string_lossy().to_string());
        assert_eq!(file_stem(p), std_stem, "path {p}");
    }
}

#[test]
fn the_command_line_of_the_converter() {
    assert_eq!(
        soffice_arguments("/var/p", "/out", "/work/a.xlsx"),
        vec![
            "--headless",
            "--norestore",
            "--nologo",
            "--nofirststartwizard",
            "-env:UserInstallation=file:///var/p",
            "--convert-to",
            "pdf",
            "--outdir",
            "/out",
            "/work/a.xlsx"
        ]
    );
    assert_eq!(soffice_candidates()[0], "/usr/bin/soffice");
}

#[test]
fn what_can_go_wrong_with_a_conversion() {
    let say = |c: Conversion, x: &str| conversion_error(&c, x, "/out/a.pdf").map(|e| e.message());
    assert_eq!(say(Conversion::Ended(true), "a.xlsx"), None);
    assert_eq!(
        say(Conversion::NotFound, "a.xlsx").unwrap(),
        "template error: soffice not found in PATH; install LibreOffice (apt: libreoffice-core)"
    );
    assert_eq!(
        say(Conversion::NotStarted("no".to_string()), "a.xlsx").unwrap(),
        "template error: spawn soffice: no"
    );
    assert_eq!(
        say(Conversion::Failed("exit status: 3".to_string()), "a.xlsx").unwrap(),
        "template error: soffice exit exit status: 3 for a.xlsx"
    );
    assert_eq!(
        say(Conversion::Ended(false), "a.xlsx").unwrap(),
        "template error: soffice reported success but PDF not found: /out/a.pdf"
    );
    assert_eq!(say(Conversion::Ended(true), "..").unwrap(), "template error: bad xlsx filename: ..");
}
