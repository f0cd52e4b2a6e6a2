use brush_splat::compressed::{check_progress, is_at, CompressedImport, QuantRow};
use brush_splat::evidence::{evidence_field, SplatEvidence};
use brush_splat::header::{
    axis_comment, plan_import, render_mode_comment, start_import, up_axis, AxisComment, ElementDef,
    Header, ImportError, PlyKind,
};
use brush_splat::import::{GaussRow, PassEnd, PlyImport, TimedUpdate, TopUp};
use brush_splat::scalar::Scalar;
use brush_splat::splat_data::SplatRenderMode;
use serde::de::DeserializeSeed;
use std::collections::HashMap;

fn scalar(x: f32) -> Scalar {
    Scalar { bits: x.to_bits() }
}

fn floats(values: &[Scalar]) -> Vec<f32> {
    values.iter().map(|x| f32::from_bits(x.bits)).collect()
}

fn ply(lines: &[&str]) -> Vec<u8> {
    let mut text = lines.join("\n");
    text.push('\n');
    text.into_bytes()
}

fn element(name: &str, count: usize, properties: &[&str]) -> ElementDef {
    ElementDef {
        name: name.to_string(),
        count,
        properties: properties.iter().map(|p| p.to_string()).collect(),
    }
}

fn gauss(x: f32) -> GaussRow {
    GaussRow {
        position: [scalar(x), scalar(x + 0.1), scalar(x + 0.2)],
        red: None,
        green: None,
        blue: None,
        dc: [scalar(x), scalar(x), scalar(x)],
        rest: (0..45u8).map(|i| scalar(f32::from(i))).collect(),
        scale: [scalar(-1.0), scalar(-2.0), scalar(-3.0)],
        rotation: [scalar(1.0), scalar(0.0), scalar(0.0), scalar(0.0)],
        opacity: scalar(0.5),
        evidence: [None; 7],
    }
}

#[test]
fn a_plain_header_is_understood() {
    let bytes = ply(&[
        "ply",
        "format ascii 1.0",
        "comment Vertical Axis: Z",
        "comment SplatRenderMode: mip",
        "element vertex 3",
        "property float x",
        "property float y",
        "property float z",
        "end_header",
    ]);
    let plan = start_import(&bytes, Some(2)).unwrap();
    assert_eq!(plan.kind, PlyKind::Plain);
    assert_eq!(plan.subsample, 2);
    assert_eq!(plan.render_mode, Some(SplatRenderMode::Mip));
    assert_eq!(plan.header.elements.len(), 1);
    assert_eq!(plan.header.elements[0].name, "vertex");
    assert_eq!(plan.header.elements[0].count, 3);
    assert_eq!(plan.header.elements[0].properties, vec!["x", "y", "z"]);
    let parsed = vec![Vec::new(); plan.axes.len()];
    let up = up_axis(&plan.axes, &parsed).unwrap();
    assert_eq!(floats(&up), vec![0.0, 0.0, -1.0]);
    assert_eq!(start_import(&bytes, None).unwrap().subsample, 1);
}

#[test]
fn chunks_before_vertices_are_compressed() {
    let bytes = ply(&[
        "ply",
        "format binary_little_endian 1.0",
        "element chunk 1",
        "property float min_x",
        "element vertex 3",
        "property uint packed_position",
        "end_header",
    ]);
    assert_eq!(start_import(&bytes, None).unwrap().kind, PlyKind::Compressed);
}

#[test]
fn files_without_vertices_are_refused() {
    let bytes = ply(&[
        "ply",
        "format ascii 1.0",
        "element face 1",
        "property float x",
        "end_header",
    ]);
    let e = start_import(&bytes, None).err().unwrap();
    assert_eq!(e, ImportError::UnknownFormat);
    assert_eq!(e.message(), "Unknown format");
    let e = start_import(&b"ply\nformat ascii 1.0\n".to_vec(), None);
    assert_eq!(e.err().unwrap(), ImportError::MissingHeader);
    assert_eq!(ImportError::MissingHeader.message(), "missing PLY header");
    assert_eq!(
        ImportError::UnexpectedEof.message(),
        "Unexpected EOF: PLY file ended before its header's declared vertex/row count was \
         reached (the file is truncated or corrupt)"
    );
    assert_eq!(
        ImportError::NoSplat.message(),
        "Couldn't load single splat from ply"
    );
}

#[test]
fn the_last_comment_counts() {
    let header = Header {
        comments: vec![
            "SplatRenderMode: MIP".to_string(),
            "vertical axis: y".to_string(),
            "splatrendermode: default".to_string(),
            "Vertical axis: [0.123, 0.456 -0.789]".to_string(),
            "splatrendermode: other".to_string(),
            "vertical axis: nowhere".to_string(),
        ],
        elements: vec![element("vertex", 1, &["x"])],
    };
    let plan = plan_import(header, None).unwrap();
    assert_eq!(plan.render_mode, Some(SplatRenderMode::Default));
    let parsed: Vec<Vec<Option<Scalar>>> = plan
        .axes
        .iter()
        .map(|axis| match axis {
            AxisComment::Words(words) => words
                .iter()
                .map(|w| w.parse::<f32>().ok().map(scalar))
                .collect(),
            _ => Vec::new(),
        })
        .collect();
    let up = up_axis(&plan.axes, &parsed).unwrap();
    assert_eq!(floats(&up), vec![0.123, 0.456, -0.789]);
}

#[test]
fn comments_are_read_in_any_case() {
    assert!(matches!(axis_comment("created by hand"), AxisComment::Absent));
    match axis_comment("VERTICAL AXIS:  X \t") {
        AxisComment::Named(v) => assert_eq!(floats(&v), vec![1.0, 0.0, 0.0]),
        _ => panic!("an axis is named"),
    }
    match axis_comment("vertical axis: y") {
        AxisComment::Named(v) => assert_eq!(floats(&v), vec![0.0, -1.0, 0.0]),
        _ => panic!("an axis is named"),
    }
    match axis_comment("vertical axis: [1,2]\u{3000}3,") {
        AxisComment::Words(words) => assert_eq!(words, vec!["1", "2", "3"]),
        _ => panic!("words are listed"),
    }
    assert_eq!(render_mode_comment("SPLATRENDERMODE: Mip "), Some(SplatRenderMode::Mip));
    assert_eq!(render_mode_comment("SplatRenderMode:mip"), None);
}

#[test]
fn lanes_follow_the_properties() {
    let vertex = element(
        "vertex",
        9,
        &["x", "y", "z", "f_dc_0", "f_dc_1", "f_dc_2", "f_rest_0", "opacity", "ev_w_in"],
    );
    let import = PlyImport::new(&vertex, 2);
    assert_eq!(import.max_splats, 4);
    assert_eq!(import.sh_count, 4);
    assert!(import.data.rotations.is_none());
    assert!(import.data.log_scales.is_none());
    assert!(import.data.sh_coeffs.is_some());
    assert!(import.data.raw_opacities.is_some());
    assert!(import.data.evidence.is_some());
    let bare = PlyImport::new(&element("vertex", 1, &["x", "rot_0", "scale_0"]), 1);
    assert_eq!(bare.sh_count, 0);
    assert!(bare.data.sh_coeffs.is_none());
    assert!(bare.data.rotations.is_some());
    assert!(bare.data.log_scales.is_some());
    assert!(bare.data.evidence.is_none());
    let coloured = PlyImport::new(&element("vertex", 1, &["red", "green", "blue", "r", "redder"]), 1);
    assert_eq!(coloured.sh_count, 4);
}

#[test]
fn every_second_row_is_kept() {
    let vertex = element(
        "vertex",
        4,
        &[
            "x", "y", "z", "f_dc_0", "f_dc_1", "f_dc_2", "f_rest_0", "f_rest_1", "f_rest_2",
            "rot_0", "scale_0", "opacity", "ev_w_in",
        ],
    );
    let mut import = PlyImport::new(&vertex, 2);
    let rgb = [scalar(7.0), scalar(8.0), scalar(9.0)];
    for i in 0..4u8 {
        let mut row = gauss(f32::from(i));
        if i == 3 {
            row.red = Some(scalar(0.1));
            row.green = Some(scalar(0.2));
            row.blue = Some(scalar(0.3));
            row.evidence[2] = Some(scalar(0.4));
        }
        import.push_row(&row, rgb);
    }
    let message = import.finish(None, Some(SplatRenderMode::Default), scalar(1.25));
    assert_eq!(message.meta.total_splats, 2);
    assert_eq!(message.meta.progress, scalar(1.25));
    assert_eq!(message.meta.render_mode, Some(SplatRenderMode::Default));
    assert_eq!(message.meta.up_axis, None);
    assert_eq!(message.data.num_splats(), 2);
    assert_eq!(floats(&message.data.means), vec![1.0, 1.1, 1.2, 3.0, 3.1, 3.2]);
    assert_eq!(
        floats(&message.data.sh_coeffs.unwrap()),
        vec![1.0, 1.0, 1.0, 0.0, 1.0, 2.0, 7.0, 8.0, 9.0, 0.0, 1.0, 2.0]
    );
    assert_eq!(floats(&message.data.log_scales.unwrap()).len(), 6);
    assert_eq!(floats(&message.data.rotations.unwrap()).len(), 8);
    assert_eq!(floats(&message.data.raw_opacities.unwrap()), vec![0.5, 0.5]);
    let evidence = floats(&message.data.evidence.unwrap());
    assert_eq!(evidence[..7], [0.0; 7]);
    assert_eq!(evidence[7..], [0.0, 0.0, 0.4, 0.0, 0.0, 0.0, 0.0]);
}

#[test]
fn carried_evidence_is_read_back() {
    let mut import = PlyImport::new(&element("vertex", 2, &["x", "ev_w_in", "ev_w_all"]), 1);
    let block: Vec<Scalar> = (0..14u8).map(|k| scalar(f32::from(k))).collect();
    for i in 0..2 {
        let mut row = gauss(0.0);
        for k in 0..7 {
            row.evidence[k] = Some(block[7 * i + k]);
        }
        import.push_row(&row, [Scalar::zero(); 3]);
    }
    let message = import.finish(None, None, scalar(1.0));
    assert_eq!(message.data.evidence, Some(block.clone()));
    assert_eq!(SplatEvidence::from_flat(&block).w_all[1], scalar(8.0));
}

#[test]
fn two_colours_of_three_do_not_count() {
    let mut import = PlyImport::new(&element("vertex", 1, &["f_dc_0", "f_dc_1", "f_dc_2"]), 1);
    let mut row = gauss(4.0);
    row.red = Some(scalar(0.1));
    row.green = Some(scalar(0.2));
    import.push_row(&row, [scalar(7.0), scalar(8.0), scalar(9.0)]);
    let so_far = import.message(None, None, scalar(0.5));
    assert_eq!(floats(&so_far.data.sh_coeffs.unwrap()), vec![4.0, 4.0, 4.0]);
}

#[test]
fn updates_come_in_their_interval() {
    let second = 1_000_000_000u64;
    let mut update = TimedUpdate::for_import(true, 0);
    assert!(!update.should_update(scalar(0.1), second));
    assert!(update.should_update(scalar(0.1), 1_500_000_000));
    assert!(!update.should_update(scalar(0.2), 2 * second));
    assert!(!update.should_update(scalar(0.95), 10 * second));
    assert!(update.should_update(scalar(0.94), 10 * second));
    // Of an empty file no fraction is done.
    assert!(update.should_update(scalar(f32::NAN), 12 * second));
    let mut never = TimedUpdate::for_import(false, 0);
    assert!(!never.should_update(scalar(0.0), u64::MAX));
}

#[test]
fn passes_end_as_their_rows_say() {
    let mut import = PlyImport::new(&element("vertex", 2, &["x"]), 1);
    let mut quiet = TimedUpdate::new(None, 0);
    let zero = [Scalar::zero(); 3];
    let end = import.end_pass(false, 0, &mut quiet, scalar(0.0), 1);
    assert_eq!(end, Err(ImportError::UnexpectedEof));
    let end = import.end_pass(true, 0, &mut quiet, scalar(0.0), 1);
    assert_eq!(end, Ok(PassEnd::Continue));
    import.push_row(&gauss(0.0), zero);
    let mut busy = TimedUpdate::new(Some(5), 0);
    let end = import.end_pass(true, 0, &mut busy, scalar(0.5), 5);
    assert_eq!(end, Ok(PassEnd::Emit));
    assert_eq!(busy.last_update, 5);
    // No new bytes, but a row that was still in the buffer.
    let end = import.end_pass(false, 0, &mut quiet, scalar(0.5), 1);
    assert_eq!(end, Ok(PassEnd::Continue));
    import.push_row(&gauss(1.0), zero);
    let end = import.end_pass(false, 1, &mut quiet, scalar(1.0), 1);
    assert_eq!(end, Ok(PassEnd::Finish));
}

fn number(row: &HashMap<String, f32>, name: &str) -> f32 {
    row.get(name).copied().unwrap_or(0.0)
}

/// Reads `bytes` in pieces of `piece` bytes, as a streaming reader does.
fn read_all(bytes: &[u8], piece: usize, subsample: Option<u32>) -> Result<Vec<f32>, ImportError> {
    let plan = start_import(&bytes.to_vec(), subsample)?;
    let vertex = plan.header.find("vertex").unwrap();
    let mut import = PlyImport::new(&plan.header.elements[vertex], plan.subsample);
    let mut update = TimedUpdate::for_import(false, 0);
    let mut file = serde_ply::PlyChunkedReader::new();
    let mut at = 0;
    for _ in 0..10_000 {
        let next = (at + piece).min(bytes.len());
        file.buffer_mut().extend_from_slice(&bytes[at..next]);
        let made_progress = next > at;
        at = next;
        let before = import.row_index;
        serde_ply::RowVisitor::new(|row: HashMap<String, f32>| {
            let mut gauss = gauss(number(&row, "x"));
            gauss.opacity = scalar(number(&row, "opacity"));
            import.push_row(&gauss, [Scalar::zero(); 3]);
        })
        .deserialize(&mut file)
        .unwrap();
        match import.end_pass(made_progress, before, &mut update, scalar(0.0), 0)? {
            PassEnd::Finish => {
                let message = import.finish(None, None, scalar(1.0));
                return Ok(floats(&message.data.raw_opacities.unwrap()));
            }
            PassEnd::Emit => panic!("nothing is streamed"),
            PassEnd::Continue => {}
        }
    }
    panic!("the import does not end")
}

fn sample_file() -> Vec<u8> {
    let mut bytes = ply(&[
        "ply",
        "format binary_little_endian 1.0",
        "element vertex 64",
        "property float x",
        "property float opacity",
        "end_header",
    ]);
    for i in 0..64u8 {
        bytes.extend(f32::from(i).to_le_bytes());
        bytes.extend((f32::from(i) * 2.0).to_le_bytes());
    }
    bytes
}

#[test]
fn a_file_is_read_to_its_end() {
    let bytes = sample_file();
    let all: Vec<f32> = (0..64u8).map(|i| f32::from(i) * 2.0).collect();
    assert_eq!(read_all(&bytes, 1 << 20, None).unwrap(), all);
    assert_eq!(read_all(&bytes, 100, None).unwrap(), all);
    let third: Vec<f32> = (0..21u8).map(|i| f32::from(3 * i + 2) * 2.0).collect();
    assert_eq!(read_all(&bytes, 100, Some(3)).unwrap(), third);
}

#[test]
fn a_truncated_file_is_an_error() {
    let bytes = sample_file();
    let cut = &bytes[..bytes.len() * 9 / 10];
    assert_eq!(read_all(cut, 1 << 20, None), Err(ImportError::UnexpectedEof));
    assert_eq!(read_all(cut, 90, Some(2)), Err(ImportError::UnexpectedEof));
}

fn quant(x: f32) -> QuantRow {
    QuantRow {
        mean: [scalar(x), scalar(x), scalar(x)],
        log_scale: [scalar(-x), scalar(-x), scalar(-x)],
        rotation: [scalar(1.0), scalar(2.0), scalar(3.0), scalar(4.0)],
        raw_opacity: scalar(x + 0.5),
        dc: [scalar(x + 0.1), scalar(x + 0.2), scalar(x + 0.3)],
    }
}

fn compressed_header(third: Option<ElementDef>) -> Header {
    let mut elements = vec![
        element("chunk", 1, &["min_x"]),
        element("vertex", 4, &["packed_position"]),
    ];
    elements.extend(third);
    Header {
        comments: Vec::new(),
        elements,
    }
}

#[test]
fn compressed_splats_and_coefficients_are_put_together() {
    let header = compressed_header(Some(element("sh", 4, &["f_rest_0", "f_rest_1", "f_rest_2"])));
    let current = Some(element("vertex", 4, &["packed_position"]));
    let mut import = CompressedImport::start(&current, &Some(header), 2).ok().unwrap();
    assert_eq!(import.max_splats, 2);
    assert_eq!(import.sh_count, Some(3));
    assert_eq!(import.splat_share(), scalar(0.8));
    let mut update = TimedUpdate::for_import(false, 0);
    for i in 0..4u8 {
        assert_eq!(import.range_index(), 0);
        import.push_row(&quant(f32::from(i)));
    }
    let end = import.end_pass(true, 0, &mut update, scalar(1.0), 0);
    assert_eq!(end, Ok(PassEnd::Finish));
    let first = import.message(None, None, scalar(1.0));
    assert_eq!(first.meta.total_splats, 2);
    assert_eq!(floats(&first.data.means), vec![1.0, 1.0, 1.0, 3.0, 3.0, 3.0]);
    assert_eq!(
        floats(first.data.rotations.as_ref().unwrap()),
        vec![4.0, 1.0, 2.0, 3.0, 4.0, 1.0, 2.0, 3.0]
    );
    assert_eq!(
        floats(first.data.sh_coeffs.as_ref().unwrap()),
        vec![1.1, 1.2, 1.3, 3.1, 3.2, 3.3]
    );
    assert_eq!(floats(first.data.raw_opacities.as_ref().unwrap()), vec![1.5, 3.5]);
    assert!(first.data.evidence.is_none());
    for i in 0..4u8 {
        let rest: Vec<Scalar> = (0..45u8).map(|k| scalar(100.0 * f32::from(i) + f32::from(k))).collect();
        import.push_sh(&rest);
    }
    let last = import
        .finish(Some([Scalar::zero(); 3]), Some(SplatRenderMode::Mip))
        .unwrap();
    assert_eq!(last.meta.total_splats, 2);
    assert_eq!(last.meta.progress, Scalar::one());
    assert_eq!(last.meta.up_axis, Some([Scalar::zero(); 3]));
    assert_eq!(
        floats(&last.data.sh_coeffs.unwrap()),
        vec![1.1, 1.2, 1.3, 100.0, 101.0, 102.0, 3.1, 3.2, 3.3, 300.0, 301.0, 302.0]
    );
}

#[test]
fn without_coefficients_the_last_message_was_complete() {
    let current = Some(element("vertex", 4, &[]));
    let import = CompressedImport::start(&current, &Some(compressed_header(None)), 1);
    let import = import.ok().unwrap();
    assert_eq!(import.splat_share(), Scalar::one());
    assert!(import.finish(None, None).is_none());
}

#[test]
fn ranges_change_every_256_splats() {
    let current = Some(element("vertex", 600, &[]));
    let import = CompressedImport::start(&current, &Some(compressed_header(None)), 100);
    let mut import = import.ok().unwrap();
    let mut indices = Vec::new();
    for _ in 0..600 {
        indices.push(import.range_index());
        import.push_row(&quant(0.0));
    }
    assert_eq!(indices[255], 0);
    assert_eq!(indices[256], 1);
    assert_eq!(indices[511], 1);
    assert_eq!(indices[512], 2);
    assert_eq!(import.message(None, None, scalar(1.0)).data.num_splats(), 6);
}

#[test]
fn compressed_files_need_their_elements() {
    let header = Some(compressed_header(None));
    let e = CompressedImport::start(&None, &header, 1).err().unwrap();
    assert_eq!(e, ImportError::UnknownFormat);
    let current = Some(element("sh", 1, &[]));
    let e = CompressedImport::start(&current, &header, 1).err().unwrap();
    assert_eq!(e, ImportError::UnknownFormat);
    let current = Some(element("vertex", 1, &[]));
    let e = CompressedImport::start(&current, &None, 1).err().unwrap();
    assert_eq!(e, ImportError::MissingHeader);
    assert!(is_at(&current, "vertex"));
    assert!(!is_at(&current, "chunk"));
    assert!(!is_at(&None, "chunk"));
}

#[test]
fn elements_stall_only_while_rows_are_missing() {
    let stalled = Err(ImportError::UnexpectedEof);
    assert_eq!(check_progress(false, 3, 3, 5), stalled);
    assert_eq!(check_progress(true, 3, 3, 5), Ok(()));
    assert_eq!(check_progress(false, 3, 4, 5), Ok(()));
    assert_eq!(check_progress(false, 3, 5, 5), Ok(()));
    // An empty element misses no row.
    assert_eq!(check_progress(false, 0, 0, 0), Ok(()));
    assert_eq!(check_progress(false, 0, 0, 1), stalled);
}

#[test]
fn an_import_without_rows_is_complete() {
    let mut update = TimedUpdate::for_import(false, 0);
    let nan = scalar(f32::NAN);
    let import = PlyImport::new(&element("vertex", 0, &["x", "opacity"]), 1);
    let end = import.end_pass(false, 0, &mut update, nan, 0);
    assert_eq!(end, Ok(PassEnd::Finish));
    let message = import.finish(None, None, scalar(1.0));
    assert_eq!(message.meta.total_splats, 0);
    assert_eq!(message.data.num_splats(), 0);
    let current = Some(element("vertex", 0, &[]));
    let import = CompressedImport::start(&current, &Some(compressed_header(None)), 1);
    let import = import.ok().unwrap();
    let end = import.end_pass(false, 0, &mut update, nan, 0);
    assert_eq!(end, Ok(PassEnd::Finish));
    assert_eq!(import.message(None, None, scalar(1.0)).data.num_splats(), 0);
}

#[test]
fn a_file_without_rows_is_read() {
    let bytes = ply(&[
        "ply",
        "format binary_little_endian 1.0",
        "element vertex 0",
        "property float x",
        "property float opacity",
        "end_header",
    ]);
    assert_eq!(read_all(&bytes, 1 << 20, None), Ok(Vec::new()));
    assert_eq!(read_all(&bytes, 10, Some(2)), Ok(Vec::new()));
}

#[test]
fn any_evidence_property_makes_a_lane() {
    for k in 0..7 {
        let vertex = element("vertex", 1, &["x", evidence_field(k)]);
        let mut import = PlyImport::new(&vertex, 1);
        assert_eq!(import.data.evidence, Some(Vec::new()));
        let mut row = gauss(0.0);
        row.evidence[k] = Some(scalar(2.5));
        import.push_row(&row, [Scalar::zero(); 3]);
        let mut expected = vec![0.0; 7];
        expected[k] = 2.5;
        let data = import.finish(None, None, scalar(1.0)).data;
        assert_eq!(floats(&data.evidence.unwrap()), expected);
    }
    let other = PlyImport::new(&element("vertex", 1, &["x", "ev_dir_3", "ev"]), 1);
    assert_eq!(other.data.evidence, None);
}

#[test]
fn a_buffer_is_topped_up_until_it_is_full() {
    let mut top_up = TopUp::new(100);
    assert!(top_up.wants(99));
    assert!(!top_up.wants(100));
    assert!(!top_up.made_progress());
    assert!(top_up.took(40, 30));
    assert!(!top_up.took(100, 60));
    assert_eq!(top_up.new_bytes, 90);
    assert!(top_up.made_progress());
    // A read without bytes is the end of the file.
    let mut top_up = TopUp::new(100);
    assert!(!top_up.took(40, 0));
    assert!(!top_up.made_progress());
}

/// The opacities of every message, with a row per pass and `update` as the timer.
fn messages(mut update: TimedUpdate) -> Vec<Vec<f32>> {
    let mut import = PlyImport::new(&element("vertex", 6, &["x", "opacity"]), 2);
    let mut out = Vec::new();
    for i in 0..6u8 {
        let before = import.row_index;
        let mut row = gauss(f32::from(i));
        row.opacity = scalar(f32::from(i));
        import.push_row(&row, [Scalar::zero(); 3]);
        let now = 1_000_000_000 * u64::from(i);
        match import.end_pass(true, before, &mut update, scalar(0.5), now) {
            Ok(PassEnd::Continue) => {}
            Ok(_) => {
                let data = import.message(None, None, scalar(0.5)).data;
                out.push(floats(&data.raw_opacities.unwrap()));
            }
            Err(_) => panic!("bytes came"),
        }
    }
    out
}

#[test]
fn streamed_messages_are_prefixes_of_the_last() {
    let streamed = messages(TimedUpdate::for_import(true, 0));
    let quiet = messages(TimedUpdate::for_import(false, 0));
    assert_eq!(quiet, vec![vec![1.0, 3.0, 5.0]]);
    assert_eq!(streamed.len(), 3);
    for pair in streamed.windows(2) {
        assert!(pair[1].starts_with(&pair[0]));
    }
    assert_eq!(streamed.last(), quiet.last());
}
