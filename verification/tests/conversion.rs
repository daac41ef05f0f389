use csv2vviz::archive::convert_archive;
use csv2vviz::archive::read_archive;
use csv2vviz::archive::parse_entry;
use csv2vviz::archive::Entry;
use csv2vviz::table::RawRecord;
use csv2vviz::transform::transform_records;
use csv2vviz::transform::canonical_points;
use csv2vviz::transform::set_positions;
use csv2vviz::transform::Vec3;
use csv2vviz::show::make_performance;
use csv2vviz::show::assemble_show;
use csv2vviz::ConvertError;

const HEADER: &str = "time,x,z,y,r,g,b\n";

fn zip_bytes(entries: &[(&str, &str)]) -> Vec<u8> {
    let mut w = zip::ZipWriter::new(std::io::Cursor::new(Vec::new()));
    let opts = zip::write::SimpleFileOptions::default();
    for (name, content) in entries {
        w.start_file(*name, opts).unwrap();
        std::io::Write::write_all(&mut w, content.as_bytes()).unwrap();
    }
    w.finish().unwrap().into_inner()
}

fn record(ts: i64, x: i64, z: i64, y: i64) -> RawRecord {
    RawRecord { ts, x, z, y, red: Vec::new(), green: Vec::new(), blue: Vec::new() }
}

#[test]
fn two_row_example() {
    // Rows (0,1,2,3,,,) and (1000,4,6,5,,,): home is the first row's
    // columns, the single step follows the column contract (x from column
    // one, y from column three, z from column two), dt is one second.
    let data = zip_bytes(&[("Drone 1", "time,x,z,y,r,g,b\n0,1,2,3,,,\n1000,4,6,5,,,\n")]);
    let show = convert_archive(&data, &None).unwrap();
    assert_eq!(show.performances.len(), 1);
    let p = &show.performances[0];
    assert_eq!(p.id, 0);
    assert_eq!(p.description.home_x, 1_000_000);
    assert_eq!(p.description.home_y, 3_000_000);
    assert_eq!(p.description.home_z, 2_000_000);
    assert_eq!(p.description.traversals.len(), 1);
    let t = &p.description.traversals[0];
    assert_eq!(t.dx, 3_000_000);
    assert_eq!(t.dy, 2_000_000);
    assert_eq!(t.dz, 4_000_000);
    assert_eq!(t.dt, 1_000_000);
    assert!(p.payload.is_empty());
    assert_eq!(show.version, b"1.0".to_vec());
    assert_eq!(show.default_position_rate_micro, 4_000_000);
    assert_eq!(show.default_color_rate_micro, 4_000_000);
}

#[test]
fn traversal_count_and_home() {
    // Four well-formed rows give exactly three steps; the home position is
    // the first row's mapped position.
    let content = "time,x,z,y,r,g,b\n0,10,20,30,,,\n100,11,21,31,,,\n200,12,22,32,,,\n300,13,23,33,,,\n";
    let data = zip_bytes(&[("Drone 2", content)]);
    let show = convert_archive(&data, &None).unwrap();
    let p = &show.performances[0];
    assert_eq!(p.id, 1);
    assert_eq!(p.description.traversals.len(), 3);
    assert_eq!(p.description.home_x, 10_000_000);
    assert_eq!(p.description.home_y, 30_000_000);
    assert_eq!(p.description.home_z, 20_000_000);
}

#[test]
fn delta_round_trip_reconstructs_last_position() {
    let content = "time,x,z,y,r,g,b\n0,1.5,2,3,,,\n50,-4,2.25,3,,,\n120,10,-7,0.125,,,\n";
    let data = zip_bytes(&[("Drone 1", content)]);
    let show = convert_archive(&data, &None).unwrap();
    let p = &show.performances[0];
    let mut x = p.description.home_x;
    let mut y = p.description.home_y;
    let mut z = p.description.home_z;
    for t in &p.description.traversals {
        x += t.dx;
        y += t.dy;
        z += t.dz;
    }
    // Last row mapped: x from column one, y from column three, z from column two.
    assert_eq!(x, 10_000_000);
    assert_eq!(y, 125_000);
    assert_eq!(z, -7_000_000);
}

#[test]
fn performances_ordered_by_id() {
    // Entries arrive as Drone 3 then Drone 1; the output order is by id.
    let one_row = "time,x,z,y,r,g,b\n0,0,0,0,,,\n";
    let data = zip_bytes(&[("Drone 3", one_row), ("Drone 1", one_row)]);
    let show = convert_archive(&data, &None).unwrap();
    let ids: Vec<u64> = show.performances.iter().map(|p| p.id).collect();
    assert_eq!(ids, vec![0, 2]);
}

#[test]
fn non_matching_entry_name_is_fatal() {
    let one_row = "time,x,z,y,r,g,b\n0,0,0,0,,,\n";
    let data = zip_bytes(&[("Sensor 1", one_row)]);
    assert!(matches!(convert_archive(&data, &None), Err(ConvertError::EntryName)));
}

#[test]
fn entry_without_data_rows_is_fatal() {
    let data = zip_bytes(&[("Drone 1", HEADER)]);
    assert!(matches!(convert_archive(&data, &None), Err(ConvertError::EntryEmpty)));
}

#[test]
fn non_numeric_field_is_fatal() {
    let data = zip_bytes(&[("Drone 1", "time,x,z,y,r,g,b\n0,bad,2,3,,,\n")]);
    assert!(matches!(convert_archive(&data, &None), Err(ConvertError::FieldNumeric)));
}

#[test]
fn short_rows_are_fatal() {
    let data = zip_bytes(&[("Drone 1", "time,x,z\n0,1,2\n")]);
    assert!(matches!(convert_archive(&data, &None), Err(ConvertError::RowFields)));
}

#[test]
fn ragged_rows_are_a_table_error() {
    let data = zip_bytes(&[("Drone 1", "time,x,z,y,r,g,b\n0,1,2\n")]);
    assert!(matches!(convert_archive(&data, &None), Err(ConvertError::TableSyntax)));
}

#[test]
fn unreadable_archive_is_fatal() {
    let data = b"this is not an archive".to_vec();
    assert!(matches!(convert_archive(&data, &None), Err(ConvertError::ArchiveRead)));
}

#[test]
fn translation_moves_every_position() {
    let content = "time,x,z,y,r,g,b\n0,1,2,3,,,\n1000,4,6,5,,,\n";
    let data = zip_bytes(&[("Drone 1", content)]);
    let t = Vec3 { x: 1_000_000, y: 2_000_000, z: 3_000_000 };
    let show = convert_archive(&data, &Some(t)).unwrap();
    let p = &show.performances[0];
    // Column one moves by the x offset, column three by the y offset,
    // column two by the z offset.
    assert_eq!(p.description.home_x, 2_000_000);
    assert_eq!(p.description.home_y, 5_000_000);
    assert_eq!(p.description.home_z, 5_000_000);
    // Deltas are unchanged by a uniform translation.
    let tr = &p.description.traversals[0];
    assert_eq!((tr.dx, tr.dy, tr.dz), (3_000_000, 2_000_000, 4_000_000));
}

#[test]
fn absent_transform_is_identity() {
    let recs = vec![record(0, 1, 2, 3), record(1000, -4, 5, 6)];
    let out = transform_records(&recs, &None);
    assert_eq!(out.len(), 2);
    assert_eq!((out[0].x, out[0].z, out[0].y), (1, 2, 3));
    assert_eq!((out[1].x, out[1].z, out[1].y), (-4, 5, 6));
    assert_eq!(out[0].ts, 0);
    assert_eq!(out[1].ts, 1000);
}

#[test]
fn zero_translation_is_identity() {
    let recs = vec![record(0, 1, 2, 3), record(1000, -4, 5, 6)];
    let zero = Vec3 { x: 0, y: 0, z: 0 };
    let out = transform_records(&recs, &Some(zero));
    assert_eq!((out[0].x, out[0].z, out[0].y), (1, 2, 3));
    assert_eq!((out[1].x, out[1].z, out[1].y), (-4, 5, 6));
}

#[test]
fn externally_rotated_positions_re_enter_the_pipeline() {
    // A half-turn about the vertical axis maps (x, y, z) to (-x, y, -z);
    // done twice it restores every point, as the stage functions show.
    let data = zip_bytes(&[("Drone 1", "time,x,z,y,r,g,b\n0,1,2,3,,,\n1000,4,6,5,,,\n")]);
    let entries = read_archive(&data).unwrap();
    let (id, recs) = parse_entry(&entries[0]).unwrap();
    let pts = canonical_points(&recs);
    let turned: Vec<Vec3> = pts.iter().map(|p| Vec3 { x: -p.x, y: p.y, z: -p.z }).collect();
    let once = set_positions(&recs, &turned).unwrap();
    let pts2 = canonical_points(&once);
    let back: Vec<Vec3> = pts2.iter().map(|p| Vec3 { x: -p.x, y: p.y, z: -p.z }).collect();
    let twice = set_positions(&once, &back).unwrap();
    for (a, b) in recs.iter().zip(twice.iter()) {
        assert_eq!((a.ts, a.x, a.z, a.y), (b.ts, b.x, b.z, b.y));
    }
    let perf = make_performance(id, &twice);
    let show = assemble_show(vec![perf]);
    assert_eq!(show.performances[0].description.home_x, 1_000_000);
}

#[test]
fn mismatched_position_list_is_refused() {
    let recs = vec![record(0, 1, 2, 3)];
    let pts: Vec<Vec3> = Vec::new();
    assert!(matches!(set_positions(&recs, &pts), Err(ConvertError::PositionMismatch)));
}

#[test]
fn archive_entries_come_back_in_index_order() {
    let one_row = "time,x,z,y,r,g,b\n0,0,0,0,,,\n";
    let data = zip_bytes(&[("Drone 2", one_row), ("Drone 1", one_row)]);
    let entries: Vec<Entry> = read_archive(&data).unwrap();
    assert_eq!(entries.len(), 2);
    assert_eq!(entries[0].name, b"Drone 2".to_vec());
    assert_eq!(entries[1].name, b"Drone 1".to_vec());
    assert_eq!(entries[0].data, one_row.as_bytes().to_vec());
}

#[test]
fn half_turn_twice_restores_positions() {
    // The app-side rotation path: euclid's Euler rotation at 180 degrees
    // about one axis, applied twice through `set_positions`, restores every
    // point within floating-point tolerance.
    let recs = vec![record(0, 1_000_000, 2_000_000, 3_000_000), record(1000, -4_500_000, 250_000, 6_000_000)];
    let rot = euclid::Rotation3D::<f32, euclid::UnknownUnit, euclid::UnknownUnit>::euler(
        euclid::Angle::degrees(180.0),
        euclid::Angle::degrees(0.0),
        euclid::Angle::degrees(0.0),
    )
    .normalize();
    let rotate = |rs: &Vec<RawRecord>| -> Vec<RawRecord> {
        let pts = canonical_points(rs);
        let moved: Vec<Vec3> = pts
            .iter()
            .map(|p| {
                let point = euclid::Point3D::<f32, euclid::UnknownUnit>::new(
                    p.x as f32 / 1_000_000.0,
                    p.y as f32 / 1_000_000.0,
                    p.z as f32 / 1_000_000.0,
                );
                let out = rot.transform_point3d(point);
                Vec3 {
                    x: (out.x * 1_000_000.0).round() as i64,
                    y: (out.y * 1_000_000.0).round() as i64,
                    z: (out.z * 1_000_000.0).round() as i64,
                }
            })
            .collect();
        set_positions(rs, &moved).unwrap()
    };
    let twice = rotate(&rotate(&recs));
    for (a, b) in recs.iter().zip(twice.iter()) {
        assert!((a.x - b.x).abs() <= 5, "x moved: {} vs {}", a.x, b.x);
        assert!((a.z - b.z).abs() <= 5, "z moved: {} vs {}", a.z, b.z);
        assert!((a.y - b.y).abs() <= 5, "y moved: {} vs {}", a.y, b.y);
        assert_eq!(a.ts, b.ts);
    }
}
