use std::io::Write;

use audionautica_core::ableton::{consolidate_dir, decode_set_xml, AbletonProjectReader};
use audionautica_core::error::AppError;

fn sample_xml(bpm: &str) -> String {
    format!(
        r#"<?xml version="1.0" encoding="UTF-8"?>
<Ableton MajorVersion="5" Creator="Ableton Live 12">
  <LiveSet>
    <MasterTrack>
      <Tempo>
        <LomId Value="0" />
        <Manual Value="{bpm}" />
      </Tempo>
    </MasterTrack>
  </LiveSet>
</Ableton>
"#
    )
}

fn values(xml: &str) -> Vec<&str> {
    AbletonProjectReader::tempo_candidates(xml).into_iter().map(|(a, b)| &xml[a..b]).collect()
}

#[test]
fn master_track_tempo_is_a_candidate() {
    let xml = sample_xml("126");
    assert_eq!(values(&xml), vec!["126", "126"]);
}

#[test]
fn main_track_tempo_comes_before_decoys() {
    let xml = r#"<Ableton>
  <LiveSet>
    <Foo>
      <Tempo><Manual Value="2" /></Tempo>
    </Foo>
    <MainTrack>
      <Tempo><Manual Value="20" /></Tempo>
    </MainTrack>
  </LiveSet>
</Ableton>"#;
    assert_eq!(values(xml), vec!["20", "2", "20"]);
}

#[test]
fn single_quoted_values_and_no_tempo() {
    assert_eq!(values("<Tempo><Manual Value='98.5' /></Tempo>"), vec!["98.5"]);
    assert!(values("<LiveSet></LiveSet>").is_empty());
}

#[test]
fn set_xml_is_read_plain_or_gzipped() {
    let xml = sample_xml("133");
    assert_eq!(decode_set_xml(xml.as_bytes()).unwrap(), xml);
    let mut enc = flate2::write::GzEncoder::new(Vec::new(), flate2::Compression::default());
    enc.write_all(xml.as_bytes()).unwrap();
    let gz = enc.finish().unwrap();
    assert_eq!(decode_set_xml(&gz).unwrap(), xml);
    assert!(matches!(decode_set_xml(&[0x1f, 0x8b, 0, 1]), Err(AppError::AbletonSetUnreadable)));
    assert!(matches!(decode_set_xml(&[0xff, 0xfe]), Err(AppError::AbletonSetUnreadable)));
}

#[test]
fn project_layout_names() {
    assert_eq!(AbletonProjectReader::project_name("/music/HYDRA.als"), "HYDRA");
    assert_eq!(AbletonProjectReader::project_name("/music/ Jam .als"), "Jam");
    assert_eq!(consolidate_dir("/music/HYDRA Project"), "/music/HYDRA Project/Samples/Processed/Consolidate");
}
