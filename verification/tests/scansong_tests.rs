use sonar_presence::scansong::{parse_scansong, Column, TableError};

const HEADER: &str = "url,start_s,end_s,score,frame_ms,window_s,stride_s,bandwidth_z,flatness_z,flux_z,crest_db,hf_ratio,dynrange_z,tonality_z,loudness_dbfs,notes,fp_type,fp_bands,fp_hop_s,fp_offset_s,fp_bins_hex";

fn row(url: &str, start: &str, end: &str, fp: &str) -> String {
    format!("{},{},{},1.250,23,3.0,0.2,0.10,0.20,0.30,9.1,0.123,0.40,0.50,-20.0,\"\",{}", url, start, end, fp)
}

#[test]
fn an_empty_table_is_an_error() {
    assert_eq!(parse_scansong("").err(), Some(TableError::Empty));
}

#[test]
fn every_column_is_needed() {
    assert_eq!(
        parse_scansong("start_s,end_s\n").err(),
        Some(TableError::MissingColumn(Column::Url))
    );
    assert_eq!(
        parse_scansong("url,end_s\n").err(),
        Some(TableError::MissingColumn(Column::StartS))
    );
    assert_eq!(
        parse_scansong("url,start_s\n").err(),
        Some(TableError::MissingColumn(Column::EndS))
    );
    assert_eq!(
        parse_scansong("url,start_s,end_s\n").err(),
        Some(TableError::MissingColumn(Column::FpType))
    );
    assert_eq!(
        parse_scansong("url,start_s,end_s,fp_type\n").err(),
        Some(TableError::MissingColumn(Column::FpBands))
    );
    assert_eq!(
        parse_scansong("url,start_s,end_s,fp_type,fp_bands\n").err(),
        Some(TableError::MissingColumn(Column::FpHopS))
    );
    assert_eq!(
        parse_scansong("url,start_s,end_s,fp_type,fp_bands,fp_hop_s\n").err(),
        Some(TableError::MissingColumn(Column::FpOffsetS))
    );
    assert_eq!(
        parse_scansong("url,start_s,end_s,fp_type,fp_bands,fp_hop_s,fp_offset_s\n").err(),
        Some(TableError::MissingColumn(Column::FpBinsHex))
    );
    assert_eq!(parse_scansong("\n").err(), Some(TableError::MissingColumn(Column::Url)));
}

#[test]
fn rows_are_grouped_by_url_and_segments_sorted() {
    let fp = "bandpeak_v1,32,0.01067,12.000,0a0b1f";
    let text = [
        HEADER.to_string(),
        row("https://b.example/x", "20.000", "25.000", fp),
        row("https://a.example/y", "7.5", "9.25", "bandpeak_v1,32,0.02133,0.500,00ff"),
        String::new(),
        row("https://b.example/x", "3.000", "6.000", fp),
        row("https://b.example/x", "20.000", "21.000", fp),
        String::from("   "),
    ]
    .join("\r\n");
    let songs = parse_scansong(&text).unwrap();
    assert_eq!(songs.len(), 2);
    assert_eq!(songs[0].url, "https://a.example/y");
    assert_eq!(songs[0].segs, vec![(7_500, 9_250)]);
    assert_eq!(songs[0].fp.fp_type, "bandpeak_v1");
    assert_eq!(songs[0].fp.bands, 32);
    assert_eq!(songs[0].fp.hop_us, 21_330);
    assert_eq!(songs[0].fp.offset_ms, 500);
    assert_eq!(songs[0].fp.bins, vec![0x00, 0xff]);
    assert_eq!(songs[1].url, "https://b.example/x");
    assert_eq!(songs[1].segs, vec![(3_000, 6_000), (20_000, 25_000), (20_000, 21_000)]);
    assert_eq!(songs[1].fp.hop_us, 10_670);
    assert_eq!(songs[1].fp.offset_ms, 12_000);
    assert_eq!(songs[1].fp.bins, vec![0x0a, 0x0b, 0x1f]);
}

#[test]
fn urls_without_a_usable_fingerprint_are_dropped() {
    let text = [
        HEADER.to_string(),
        row("no-type", "1", "2", ",32,0.01,0,0a"),
        row("no-bands", "1", "2", "bandpeak_v1,0,0.01,0,0a"),
        row("no-hop", "1", "2", "bandpeak_v1,32,0,0,0a"),
        row("no-bins", "1", "2", "bandpeak_v1,32,0.01,0,"),
        row("bad-bins", "1", "2", "bandpeak_v1,32,0.01,0,0g"),
        row("odd-bins", "1", "2", "bandpeak_v1,32,0.01,0,0a1"),
        row("short-row", "1", "2", "bandpeak_v1,32"),
        row("good", "1", "2", "bandpeak_v1,32,0.01,0,0a"),
    ]
    .join("\n");
    let songs = parse_scansong(&text).unwrap();
    assert_eq!(songs.len(), 1);
    assert_eq!(songs[0].url, "good");
}

#[test]
fn a_later_row_may_bring_the_fingerprint() {
    let text = [
        HEADER.to_string(),
        row("u", "5", "6", ",0,0,0,"),
        row("u", "1", "2", "bandpeak_v1,32,0.01,3.5,0102"),
        row("u", "3", "4", "other,16,0.02,9,ffff"),
    ]
    .join("\n");
    let songs = parse_scansong(&text).unwrap();
    assert_eq!(songs.len(), 1);
    assert_eq!(songs[0].segs, vec![(1_000, 2_000), (3_000, 4_000), (5_000, 6_000)]);
    assert_eq!(songs[0].fp.fp_type, "bandpeak_v1");
    assert_eq!(songs[0].fp.offset_ms, 3_500);
    assert_eq!(songs[0].fp.bins, vec![1, 2]);
}

#[test]
fn rows_without_url_or_end_are_skipped_and_bad_numbers_count_as_zero() {
    let text = "end_s , fp_bins_hex,fp_type,url,start_s,fp_bands,fp_hop_s,fp_offset_s\n\
                2,0a,t, u ,x,32,0.5,oops\n\
                \n\
                3,0b,t,,1,32,0.5,1\n\
                9\n\
                -4,0c,t,u,1.5,32,0.5,1\n";
    let songs = parse_scansong(text).unwrap();
    assert_eq!(songs.len(), 1);
    assert_eq!(songs[0].url, "u");
    assert_eq!(songs[0].segs, vec![(0, 2_000), (1_500, 0)]);
    assert_eq!(songs[0].fp.hop_us, 500_000);
    assert_eq!(songs[0].fp.offset_ms, 0);
    assert_eq!(songs[0].fp.bins, vec![0x0a]);
}

#[test]
fn a_header_alone_gives_no_songs() {
    assert_eq!(parse_scansong(HEADER).unwrap().len(), 0);
}
