use mesh_loader::assemble::{assemble, find};
use mesh_loader::error::{LoadError, ParseError};
use mesh_loader::mtl::parse_mtl;
use mesh_loader::number::{float_literal, resolve};
use mesh_loader::obj::parse_obj;
use mesh_loader::texture::{texture_from_encoded, texture_from_rgb8};

fn lits(v: &[&str]) -> Vec<Vec<u8>> {
    v.iter().map(|s| s.as_bytes().to_vec()).collect()
}

#[test]
fn material_block_fields() {
    let text = "# materials\nnewmtl wood\nNs 96.078431\nKa 0.1 0.2 0.3\nKd 0.64 0.64 0.64\nKs 0.5 0.5 0.5\nmap_Kd wood.png\nillum 2\n";
    let lib = parse_mtl(text.as_bytes()).unwrap();
    assert_eq!(lib.len(), 1);
    assert_eq!(lib[0].name, b"wood".to_vec());
    let m = &lib[0].material;
    assert_eq!(m.ns, b"96.078431".to_vec());
    assert_eq!(m.ka, lits(&["0.1", "0.2", "0.3"]));
    assert_eq!(m.kd, Some(lits(&["0.64", "0.64", "0.64"])));
    assert_eq!(m.ks, lits(&["0.5", "0.5", "0.5"]));
    assert_eq!(m.diffuse_map, Some(b"wood.png".to_vec()));
}

#[test]
fn ambient_comes_from_ka_not_ks() {
    let lib = parse_mtl(b"newmtl a\nNs 1\nKa 1 2 3\nKs 4 5 6\n").unwrap();
    assert_eq!(lib[0].material.ka, lits(&["1", "2", "3"]));
    assert_eq!(lib[0].material.ks, lits(&["4", "5", "6"]));
}

#[test]
fn unset_diffuse_is_not_black() {
    let lib = parse_mtl(b"newmtl a\nNs 1\nKa 0 0 0\nKs 0 0 0\nnewmtl b\nNs 1\nKa 0 0 0\nKd 0 0 0\nKs 0 0 0\n").unwrap();
    assert_eq!(lib[0].material.kd, None);
    assert_eq!(lib[1].material.kd, Some(lits(&["0", "0", "0"])));
}

#[test]
fn diffuse_color_and_map_reset_between_blocks() {
    let text = "newmtl a\nNs 3\nKa 1 1 1\nKd 1 0 0\nKs 1 1 1\nmap_Kd a.png\nnewmtl b\nNs 4\nKa 0 0 0\nKs 0 0 0\n";
    let lib = parse_mtl(text.as_bytes()).unwrap();
    assert_eq!(lib.len(), 2);
    assert_eq!(lib[1].name, b"b".to_vec());
    assert_eq!(lib[1].material.kd, None);
    assert_eq!(lib[1].material.diffuse_map, None);
    assert_eq!(lib[1].material.ns, b"4".to_vec());
}

#[test]
fn required_fields_do_not_carry_over() {
    let text = "newmtl a\nNs 3\nKa 1 1 1\nKs 1 1 1\nnewmtl b\nKd 1 0 0\n";
    assert_eq!(parse_mtl(text.as_bytes()).unwrap_err(), ParseError::MissingField);
}

#[test]
fn empty_library_has_no_materials() {
    assert!(parse_mtl(b"").unwrap().is_empty());
    assert!(parse_mtl(b"# nothing here\n\n").unwrap().is_empty());
}

#[test]
fn missing_required_field_fails() {
    assert_eq!(parse_mtl(b"newmtl a\nNs 1\nKa 0 0 0\n").unwrap_err(), ParseError::MissingField);
    assert_eq!(parse_mtl(b"newmtl a\nKa 0 0 0\nKs 0 0 0\nnewmtl b\n").unwrap_err(), ParseError::MissingField);
}

#[test]
fn malformed_material_lines_fail() {
    assert_eq!(parse_mtl(b"newmtl a\nNs ten\n").unwrap_err(), ParseError::MalformedNumber);
    assert_eq!(parse_mtl(b"newmtl a\nKa 0 0\n").unwrap_err(), ParseError::MissingOperand);
    assert_eq!(parse_mtl(b"newmtl\n").unwrap_err(), ParseError::MissingOperand);
    assert_eq!(parse_mtl(b"newmtl a\nmap_Kd\n").unwrap_err(), ParseError::MissingOperand);
}

#[test]
fn later_definition_of_a_name_wins() {
    let first = parse_mtl(b"newmtl m\nNs 1\nKa 0 0 0\nKs 0 0 0\n").unwrap();
    let second = parse_mtl(b"newmtl m\nNs 2\nKa 0 0 0\nKs 0 0 0\n").unwrap();
    let mut library = first;
    library.extend(second);
    assert_eq!(find(&library, b"m"), Some(1));
    assert_eq!(find(&library, b"n"), None);
    let model = parse_obj(b"v 0 0 0\nvt 0 0\nvn 0 0 1\nusemtl m\nf 1/1/1 1/1/1 1/1/1\n").unwrap();
    let subs = assemble(&model, &library).unwrap();
    assert_eq!(subs[0].material.ns, b"2".to_vec());
}

#[test]
fn float_literals() {
    for ok in ["0", "-1", "+2.5", "1e-3", "1E+5", "-.5", "5.", "3.25e2", "inf", "-Infinity", "NaN"] {
        assert!(float_literal(ok.as_bytes()), "{}", ok);
        assert!(ok.parse::<f32>().is_ok(), "{}", ok);
    }
    for bad in ["", ".", "-", "e5", "1e", "1e+", "1.2.3", "0x10", "infin", "1,5", "+-1"] {
        assert!(!float_literal(bad.as_bytes()), "{}", bad);
        assert!(bad.parse::<f32>().is_err(), "{}", bad);
    }
}

#[test]
fn index_resolution() {
    assert_eq!(resolve(3, b"-1"), Ok(2));
    assert_eq!(resolve(3, b"-3"), Ok(0));
    assert_eq!(resolve(3, b"1"), Ok(0));
    assert_eq!(resolve(3, b"+3"), Ok(2));
    assert_eq!(resolve(3, b"4"), Err(ParseError::IndexOutOfRange));
    assert_eq!(resolve(3, b"-4"), Err(ParseError::IndexOutOfRange));
    assert_eq!(resolve(3, b"0"), Err(ParseError::IndexOutOfRange));
    assert_eq!(resolve(0, b"1"), Err(ParseError::IndexOutOfRange));
    assert_eq!(resolve(3, b""), Err(ParseError::MalformedNumber));
    assert_eq!(resolve(3, b"-"), Err(ParseError::MalformedNumber));
    assert_eq!(resolve(3, b"1.0"), Err(ParseError::MalformedNumber));
}

fn png(width: u32, height: u32, samples: Vec<u8>) -> Vec<u8> {
    let img = image::RgbImage::from_raw(width, height, samples).unwrap();
    let mut bytes: Vec<u8> = Vec::new();
    image::DynamicImage::ImageRgb8(img)
        .write_to(&mut std::io::Cursor::new(&mut bytes), image::ImageOutputFormat::Png)
        .unwrap();
    bytes
}

#[test]
fn texture_is_laid_out_width_outer_height_inner() {
    // Two columns, three rows; the red sample is 10 * column + row.
    let mut samples = Vec::new();
    for y in 0..3u8 {
        for x in 0..2u8 {
            samples.extend_from_slice(&[10 * x + y, 100, 200]);
        }
    }
    let t = texture_from_encoded(&png(2, 3, samples)).unwrap();
    assert_eq!((t.width, t.height), (2, 3));
    assert_eq!(t.columns.len(), 2);
    assert_eq!(t.columns[0], vec![(0, 100, 200), (1, 100, 200), (2, 100, 200)]);
    assert_eq!(t.columns[1], vec![(10, 100, 200), (11, 100, 200), (12, 100, 200)]);
}

#[test]
fn texture_from_samples() {
    let t = texture_from_rgb8(2, 1, &vec![1, 2, 3, 4, 5, 6]);
    assert_eq!(t.columns, vec![vec![(1, 2, 3)], vec![(4, 5, 6)]]);
    let empty = texture_from_rgb8(0, 0, &vec![]);
    assert!(empty.columns.is_empty());
}

#[test]
fn undecodable_texture_is_a_file_error() {
    assert_eq!(texture_from_encoded(b"not an image").unwrap_err(), LoadError::File);
    assert_eq!(texture_from_encoded(b"").unwrap_err(), LoadError::File);
}
