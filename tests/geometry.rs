use mesh_loader::assemble::assemble;
use mesh_loader::error::ParseError;
use mesh_loader::mtl::parse_mtl;
use mesh_loader::obj::{parse_obj, Corner, ObjModel};

fn corner(p: usize, t: usize, n: usize) -> Corner {
    Corner { position: p, texcoord: t, normal: n }
}

fn parse(text: &str) -> Result<ObjModel, ParseError> {
    parse_obj(text.as_bytes())
}

fn ranges(m: &ObjModel) -> Vec<(usize, usize)> {
    m.usages.iter().map(|u| (u.start, u.end)).collect()
}

const QUAD: &str = "v 0 0 0\nv 1 0 0\nv 1 1 0\nv 0 1 0\n\
vt 0 0\nvt 1 0\nvt 1 1\nvt 0 1\n\
vn 0 0 1\nvn 0 0 1\nvn 0 0 1\nvn 0 0 1\n\
usemtl m\nf 1/1/1 2/2/2 3/3/3 4/4/4\n";

#[test]
fn quad_face_yields_two_fan_triangles() {
    let m = parse(QUAD).unwrap();
    assert_eq!(m.indices, vec![0, 1, 2, 0, 2, 3]);
    assert_eq!(
        m.corners,
        vec![corner(0, 0, 0), corner(1, 1, 1), corner(2, 2, 2), corner(3, 3, 3)]
    );
}

#[test]
fn negative_indices_count_back_from_newest() {
    let text = "v 0 0 0\nv 1 0 0\nv 0 1 0\nvt 0 0\nvn 0 0 1\nusemtl m\nf -3/1/1 -2/-1/-1 -1/1/1\n";
    let m = parse(text).unwrap();
    assert_eq!(m.corners, vec![corner(0, 0, 0), corner(1, 0, 0), corner(2, 0, 0)]);
}

#[test]
fn negative_index_uses_table_length_at_the_face() {
    let text = "v 0 0 0\nv 1 0 0\nv 0 1 0\nvt 0 0\nvn 0 0 1\nusemtl m\nf -1/1/1 -2/1/1 -3/1/1\nv 5 5 5\nf -1/1/1 -2/1/1 -3/1/1\n";
    let m = parse(text).unwrap();
    let positions: Vec<usize> = m.corners.iter().map(|c| c.position).collect();
    assert_eq!(positions, vec![2, 1, 0, 3, 2, 1]);
}

#[test]
fn corner_and_index_counts_follow_the_faces() {
    let text = "v 0 0 0\nv 1 0 0\nv 1 1 0\nv 0 1 0\nv 0 2 0\nvt 0 0\nvn 0 0 1\nusemtl m\n\
f 1/1/1 2/1/1 3/1/1\nf 1/1/1 2/1/1 3/1/1 4/1/1 5/1/1\n";
    let m = parse(text).unwrap();
    assert_eq!(m.corners.len(), 8);
    assert_eq!(m.indices.len(), 3 * (1 + 3));
    assert_eq!(m.indices, vec![0, 1, 2, 3, 4, 5, 3, 5, 6, 3, 6, 7]);
}

#[test]
fn usage_ranges_partition_the_indices() {
    let text = "v 0 0 0\nv 1 0 0\nv 1 1 0\nvt 0 0\nvn 0 0 1\nusemtl a\nf 1/1/1 2/1/1 3/1/1\n\
g body\nusemtl b\nf 1/1/1 2/1/1 3/1/1\nf 3/1/1 2/1/1 1/1/1\nusemtl a\n";
    let m = parse(text).unwrap();
    assert_eq!(ranges(&m), vec![(0, 3), (3, 9), (9, 9)]);
    assert_eq!(m.usages[0].material, b"a".to_vec());
    assert_eq!(m.usages[0].group, None);
    assert_eq!(m.usages[1].material, b"b".to_vec());
    assert_eq!(m.usages[1].group, Some(b"body".to_vec()));
    assert_eq!(m.usages[2].group, Some(b"body".to_vec()));
    assert_eq!(m.indices.len(), 9);
}

#[test]
fn group_is_taken_when_the_material_is_selected() {
    let text = "v 0 0 0\nv 1 0 0\nv 1 1 0\nvt 0 0\nvn 0 0 1\ng first\nusemtl a\nf 1/1/1 2/1/1 3/1/1\ng second\n";
    let m = parse(text).unwrap();
    assert_eq!(m.usages.len(), 1);
    assert_eq!(m.usages[0].group, Some(b"first".to_vec()));
}

#[test]
fn faces_before_the_first_selection_fail() {
    let text = "v 0 0 0\nv 1 0 0\nv 1 1 0\nvt 0 0\nvn 0 0 1\nf 1/1/1 2/1/1 3/1/1\nusemtl a\nf 1/1/1 2/1/1 3/1/1\n";
    assert_eq!(parse(text).unwrap_err(), ParseError::NoMaterial);
}

#[test]
fn ranges_start_at_zero_and_end_at_the_total() {
    let text = "v 0 0 0\nv 1 0 0\nv 1 1 0\nvt 0 0\nvn 0 0 1\ng a\nusemtl a\nf 1/1/1 2/1/1 3/1/1\nusemtl b\nf 1/1/1 2/1/1 3/1/1 1/1/1\n";
    let m = parse(text).unwrap();
    assert_eq!(ranges(&m), vec![(0, 3), (3, 9)]);
}

#[test]
fn comments_blank_lines_and_unknown_directives_are_skipped() {
    let text = "# a cube\r\n\r\nmtllib cube.mtl # library\r\no Cube\r\ns off\r\n\tv 0 0 0 \r\nv 1 0 0 1.0\r\nv 0 1 0\r\nvt 0 0\r\nvn 0 0 1\r\nusemtl m\r\nf 1/1/1 2/1/1 3/1/1 # tri\r\nl 1 2\r\n";
    let m = parse(text).unwrap();
    assert_eq!(m.positions.len(), 3);
    assert_eq!(m.positions[1], vec![b"1".to_vec(), b"0".to_vec(), b"0".to_vec()]);
    assert_eq!(m.libraries, vec![b"cube.mtl".to_vec()]);
    assert_eq!(m.indices, vec![0, 1, 2]);
}

#[test]
fn attribute_tables_keep_the_literals() {
    let m = parse("v -1.5 2e3 +0.25\nvt 0.5 .75\nvn 0 -1 0\nusemtl m\n").unwrap();
    assert_eq!(m.positions, vec![vec![b"-1.5".to_vec(), b"2e3".to_vec(), b"+0.25".to_vec()]]);
    assert_eq!(m.texcoords, vec![vec![b"0.5".to_vec(), b".75".to_vec()]]);
    assert_eq!(m.normals, vec![vec![b"0".to_vec(), b"-1".to_vec(), b"0".to_vec()]]);
    assert!(m.indices.is_empty());
}

#[test]
fn face_without_material_fails() {
    let text = "v 0 0 0\nv 1 0 0\nv 1 1 0\nvt 0 0\nvn 0 0 1\nf 1/1/1 2/1/1 3/1/1\n";
    assert_eq!(parse(text).unwrap_err(), ParseError::NoMaterial);
}

#[test]
fn model_without_positions_fails() {
    assert_eq!(parse("usemtl m\n").unwrap_err(), ParseError::NoPositions);
    assert_eq!(parse("").unwrap_err(), ParseError::NoMaterial);
}

#[test]
fn missing_operands_fail() {
    assert_eq!(parse("v 1 2\n").unwrap_err(), ParseError::MissingOperand);
    assert_eq!(parse("vt 1\n").unwrap_err(), ParseError::MissingOperand);
    assert_eq!(parse("usemtl\n").unwrap_err(), ParseError::MissingOperand);
    assert_eq!(parse("g\n").unwrap_err(), ParseError::MissingOperand);
    assert_eq!(parse("mtllib\n").unwrap_err(), ParseError::MissingOperand);
    let text = "v 0 0 0\nvt 0 0\nvn 0 0 1\nf 1/1 1/1 1/1\n";
    assert_eq!(parse(text).unwrap_err(), ParseError::MissingOperand);
    let text = "v 0 0 0\nvt 0 0\nvn 0 0 1\nf 1 1 1\n";
    assert_eq!(parse(text).unwrap_err(), ParseError::MissingOperand);
}

#[test]
fn malformed_numbers_fail() {
    assert_eq!(parse("v 1 x 2\n").unwrap_err(), ParseError::MalformedNumber);
    assert_eq!(parse("vn 1 2 3e\n").unwrap_err(), ParseError::MalformedNumber);
    let text = "v 0 0 0\nvt 0 0\nvn 0 0 1\nf 1//1 1/1/1 1/1/1\n";
    assert_eq!(parse(text).unwrap_err(), ParseError::MalformedNumber);
    let text = "v 0 0 0\nvt 0 0\nvn 0 0 1\nf a/1/1 1/1/1 1/1/1\n";
    assert_eq!(parse(text).unwrap_err(), ParseError::MalformedNumber);
}

#[test]
fn reference_with_a_fourth_part_fails() {
    let text = "v 0 0 0\nvt 0 0\nvn 0 0 1\nusemtl m\nf 1/1/1/9 1/1/1 1/1/1\n";
    assert_eq!(parse(text).unwrap_err(), ParseError::MalformedNumber);
    let text = "v 0 0 0\nvt 0 0\nvn 0 0 1\nusemtl m\nf 1/1/1/ 1/1/1 1/1/1\n";
    assert_eq!(parse(text).unwrap_err(), ParseError::MalformedNumber);
}

#[test]
fn out_of_range_indices_fail() {
    let base = "v 0 0 0\nv 1 0 0\nv 0 1 0\nvt 0 0\nvn 0 0 1\nusemtl m\n";
    for face in [
        "f 4/1/1 1/1/1 2/1/1\n",
        "f 0/1/1 1/1/1 2/1/1\n",
        "f -4/1/1 1/1/1 2/1/1\n",
        "f 1/2/1 1/1/1 2/1/1\n",
        "f 1/1/-2 1/1/1 2/1/1\n",
        "f 99999999999999999999999/1/1 1/1/1 2/1/1\n",
    ] {
        let text = format!("{}{}", base, face);
        assert_eq!(parse(&text).unwrap_err(), ParseError::IndexOutOfRange, "{}", face);
    }
}

#[test]
fn faces_need_three_corners() {
    let text = "v 0 0 0\nvt 0 0\nvn 0 0 1\nusemtl m\nf 1/1/1 1/1/1\n";
    assert_eq!(parse(text).unwrap_err(), ParseError::TooFewCorners);
}

const CUBE_OBJ: &str = "mtllib cube.mtl\n\
v -1 -1 -1\nv 1 -1 -1\nv 1 1 -1\nv -1 1 -1\nv -1 -1 1\nv 1 -1 1\nv 1 1 1\nv -1 1 1\n\
vt 0 0\nvn 0 0 1\nusemtl shiny\n\
f 1/1/1 2/1/1 3/1/1 4/1/1\nf 5/1/1 6/1/1 7/1/1 8/1/1\nf 1/1/1 2/1/1 6/1/1 5/1/1\n\
f 2/1/1 3/1/1 7/1/1 6/1/1\nf 3/1/1 4/1/1 8/1/1 7/1/1\nf 4/1/1 1/1/1 5/1/1 8/1/1\n";

const CUBE_MTL: &str = "newmtl shiny\nNs 10\nKa 0.1 0.1 0.1\nKd 0.5 0.5 0.5\nKs 0.2 0.2 0.2\n";

#[test]
fn cube_round_trip() {
    let model = parse(CUBE_OBJ).unwrap();
    let library = parse_mtl(CUBE_MTL.as_bytes()).unwrap();
    let submeshes = assemble(&model, &library).unwrap();
    assert_eq!(submeshes.len(), 1);
    assert_eq!(submeshes[0].indices.len(), 36);
    assert_eq!(submeshes[0].indices.len() / 3, 12);
    assert_eq!(model.corners.len(), 24);
    let ns: f32 = std::str::from_utf8(&submeshes[0].material.ns).unwrap().parse().unwrap();
    assert_eq!(ns, 10.0);
    assert_eq!(submeshes[0].name, None);
}

#[test]
fn undefined_material_fails_at_assembly() {
    let text = "v 0 0 0\nv 1 0 0\nv 0 1 0\nvt 0 0\nvn 0 0 1\nusemtl ghost\nf 1/1/1 2/1/1 3/1/1\n";
    let model = parse(text).unwrap();
    let library = parse_mtl(CUBE_MTL.as_bytes()).unwrap();
    assert_eq!(assemble(&model, &library).unwrap_err(), ParseError::UndefinedMaterial);
}

#[test]
fn submeshes_slice_the_indices_in_file_order() {
    let text = "v 0 0 0\nv 1 0 0\nv 1 1 0\nvt 0 0\nvn 0 0 1\nusemtl red\nf 1/1/1 2/1/1 3/1/1\n\
g lid\nusemtl blue\nf 1/1/1 2/1/1 3/1/1\nf 3/1/1 2/1/1 1/1/1\n";
    let mtl = "newmtl red\nNs 1\nKa 1 0 0\nKs 1 0 0\nnewmtl blue\nNs 2\nKa 0 0 1\nKd 0 0 0\nKs 0 0 1\n";
    let model = parse(text).unwrap();
    let library = parse_mtl(mtl.as_bytes()).unwrap();
    let subs = assemble(&model, &library).unwrap();
    assert_eq!(subs.len(), 2);
    assert_eq!(subs[0].indices, vec![0, 1, 2]);
    assert_eq!(subs[1].indices, vec![3, 4, 5, 6, 7, 8]);
    assert_eq!(subs[0].name, None);
    assert_eq!(subs[1].name, Some(b"lid".to_vec()));
    assert_eq!(subs[0].material.ns, b"1".to_vec());
    assert_eq!(subs[0].material.kd, None);
    assert_eq!(subs[1].material.kd, Some(vec![b"0".to_vec(), b"0".to_vec(), b"0".to_vec()]));
}
