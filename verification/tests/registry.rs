use zstats::collector::drives::build_gpus;
use zstats::collector::lists::is_readable;
use zstats::collector::registry::{
    drives, gpus, parse_drives, parse_gpus, percent_of, string_of, u64_of, DriveCounters,
    GpuSample, Node,
};

fn plist(body: &str) -> Vec<u8> {
    format!(
        r#"<?xml version="1.0" encoding="UTF-8"?>
<!DOCTYPE plist PUBLIC "-//Apple//DTD PLIST 1.0//EN" "http://www.apple.com/DTDs/PropertyList-1.0.dtd">
<plist version="1.0"><array>{body}</array></plist>"#
    )
    .into_bytes()
}

fn percent(value: f64) -> i64 {
    (value * 1e6).round() as i64
}

const ACCELERATOR: &str = r#"<dict>
    <key>IOClass</key><string>AGXAcceleratorG16X</string>
    <key>IORegistryEntryName</key><string>AGXAcceleratorG16X</string>
    <key>model</key><string>Apple M4 Pro</string>
    <key>gpu-core-count</key><integer>16</integer>
    <key>PerformanceStatistics</key><dict>
        <key>Alloc system memory</key><integer>8970174464</integer>
        <key>Device Utilization %</key><integer>12</integer>
        <key>In use system memory</key><integer>1270726656</integer>
        <key>In use system memory (driver)</key><integer>0</integer>
        <key>Renderer Utilization %</key><integer>12</integer>
        <key>Tiler Utilization %</key><integer>7</integer>
    </dict>
</dict>"#;

const DRIVERS: &str = r#"<dict>
    <key>IOClass</key><string>IOBlockStorageDriver</string>
    <key>Statistics</key><dict>
        <key>Bytes (Read)</key><integer>2261645545472</integer>
        <key>Bytes (Write)</key><integer>1543807442944</integer>
        <key>Errors (Read)</key><integer>0</integer>
        <key>Errors (Write)</key><integer>3</integer>
        <key>Latency Time (Read)</key><integer>0</integer>
        <key>Latency Time (Write)</key><integer>0</integer>
        <key>Operations (Read)</key><integer>116659174</integer>
        <key>Operations (Write)</key><integer>49028898</integer>
        <key>Total Time (Read)</key><integer>23710349454630</integer>
        <key>Total Time (Write)</key><integer>2295873010671</integer>
    </dict>
    <key>IORegistryEntryChildren</key><array><dict>
        <key>BSD Name</key><string>disk0</string>
        <key>Content</key><string>GUID_partition_scheme</string>
        <key>Ejectable</key><false/>
        <key>IORegistryEntryName</key><string>APPLE SSD AP0512Z Media</string>
        <key>Removable</key><false/>
        <key>Size</key><integer>500277792768</integer>
        <key>Whole</key><true/>
    </dict></array>
</dict>
<dict>
    <key>IOClass</key><string>IOBlockStorageDriver</string>
    <key>Statistics</key><dict>
        <key>Bytes (Read)</key><integer>0</integer>
        <key>Bytes (Write)</key><integer>0</integer>
        <key>Operations (Read)</key><integer>0</integer>
        <key>Operations (Write)</key><integer>0</integer>
        <key>Total Time (Read)</key><integer>0</integer>
        <key>Total Time (Write)</key><integer>0</integer>
    </dict>
    <key>IORegistryEntryChildren</key><array><dict>
        <key>BSD Name</key><string>disk4</string>
        <key>IORegistryEntryName</key><string>Apple Disk Image Media</string>
        <key>Removable</key><true/>
        <key>Size</key><integer>32545280</integer>
        <key>Whole</key><true/>
    </dict></array>
</dict>
<dict>
    <key>IOClass</key><string>IOBlockStorageDriver</string>
    <key>Statistics</key><dict>
        <key>Operations (Read)</key><integer>5</integer>
    </dict>
</dict>"#;

#[test]
fn accelerator_node_becomes_a_gpu_sample() {
    let gpus = gpus(&plist(ACCELERATOR)).expect("valid plist");
    assert_eq!(
        gpus,
        vec![GpuSample {
            name: "Apple M4 Pro".into(),
            cores: Some(16),
            utilization_percent: percent(12.0),
            renderer_utilization_percent: Some(percent(12.0)),
            tiler_utilization_percent: Some(percent(7.0)),
            memory_in_use_bytes: Some(1_270_726_656),
            memory_allocated_bytes: Some(8_970_174_464),
        }]
    );
    let shown = build_gpus(&gpus);
    assert_eq!(shown[0].name, "Apple M4 Pro");
    assert_eq!(shown[0].utilization_percent, percent(12.0));
}

#[test]
fn a_node_without_device_utilization_is_not_a_gpu() {
    let gpus = gpus(&plist(
        r#"<dict><key>model</key><string>Something</string>
           <key>PerformanceStatistics</key><dict><key>Other</key><integer>1</integer></dict></dict>"#,
    ))
    .expect("valid plist");
    assert!(gpus.is_empty());
}

#[test]
fn drivers_key_on_the_media_bsd_name_and_skip_media_less_ones() {
    let drives: Vec<DriveCounters> = drives(&plist(DRIVERS)).expect("valid plist");
    assert_eq!(drives.len(), 2, "the driver with no media is skipped");
    let ssd = &drives[0];
    assert_eq!(ssd.name, "disk0");
    assert_eq!(ssd.model.as_deref(), Some("APPLE SSD AP0512Z"));
    assert_eq!(ssd.size_bytes, Some(500_277_792_768));
    assert!(!ssd.is_removable);
    assert_eq!(ssd.read_ops, 116_659_174);
    assert_eq!(ssd.write_ops, 49_028_898);
    assert_eq!(ssd.read_bytes, 2_261_645_545_472);
    assert_eq!(ssd.read_time_ns, 23_710_349_454_630);
    assert_eq!(ssd.write_time_ns, 2_295_873_010_671);
    assert_eq!(ssd.write_errors, 3);

    let image = &drives[1];
    assert_eq!(image.name, "disk4");
    assert_eq!(image.model.as_deref(), Some("Apple Disk Image"));
    assert!(image.is_removable);
    assert_eq!(image.read_ops, 0);
}

#[test]
fn garbage_is_not_a_registry() {
    assert!(parse_gpus(&Node::Text("nope".into())).is_empty());
    assert!(parse_drives(&Node::Integer(Some(1), Some(1))).is_empty());
    assert!(gpus(&b"nope".to_vec()).is_none());
}

#[test]
fn properties_are_read_by_kind() {
    let table = vec![
        ("neg".to_string(), Node::Integer(None, Some(-3))),
        ("big".to_string(), Node::Integer(Some(u64::MAX), None)),
        ("real".to_string(), Node::Real("12.5".into())),
        ("empty".to_string(), Node::Text(String::new())),
        ("text".to_string(), Node::Text("x".into())),
    ];
    assert_eq!(u64_of(&table, "neg"), None);
    assert_eq!(u64_of(&table, "big"), Some(u64::MAX));
    assert_eq!(u64_of(&table, "missing"), None);
    assert_eq!(percent_of(&table, "neg"), Some(percent(-3.0)));
    assert_eq!(percent_of(&table, "real"), Some(percent(12.5)));
    assert_eq!(percent_of(&table, "text"), None);
    assert_eq!(string_of(&table, "empty"), None);
    assert_eq!(string_of(&table, "text").as_deref(), Some("x"));
}

#[test]
fn a_real_utilization_is_read_from_the_property_list() {
    let gpus = gpus(&plist(
        r#"<dict><key>PerformanceStatistics</key><dict>
           <key>Device Utilization %</key><real>33.25</real></dict></dict>"#,
    ))
    .expect("valid plist");
    assert_eq!(gpus[0].name, "GPU");
    assert_eq!(gpus[0].utilization_percent, percent(33.25));
}

fn with_extra(extra: &str) -> Vec<u8> {
    plist(&format!(
        r#"<dict>{extra}<key>PerformanceStatistics</key><dict>
           <key>Device Utilization %</key><integer>5</integer></dict></dict>"#
    ))
}

#[test]
fn a_date_out_of_the_calendar_makes_a_list_unreadable() {
    let near = "<key>at</key><date>2026-01-01T00:00:00Z</date>";
    assert_eq!(gpus(&with_extra(near)).expect("near").len(), 1);
    for near in ["1602-01-01T00:00:00+01:00", "4001-01-01T00:00:00Z", "9998-12-31T23:59:59-01:00"] {
        let dated = with_extra(&format!("<key>at</key><date>{near}</date>"));
        assert_eq!(gpus(&dated).expect(near).len(), 1);
    }
    for far in [
        "<key>at</key><date>9999-12-31T23:59:59-01:00</date>",
        "<key>at</key><date >9999-12-31T23:59:59-01:00</date>",
        "<key>at</key><x:date>9999-12-31T23:59:59-01:00</x:date>",
        "<key>at</key><x\">\":date>9999-12-31T23:59:59-01:00</x\">\":date>",
        "<key>at</key><date>1601-12-31T23:59:59Z</date>",
        "<key>at</key><date>200",
        "<key>at</key><date>&#57;999-12-31T23:59:59-01:00</date>",
        "<key>at</key><date><!-- -->0000-01-01T00:00:00+01:00</date>",
    ] {
        assert!(gpus(&with_extra(far)).is_none(), "{far}");
        assert!(drives(&with_extra(far)).is_none(), "{far}");
    }
    // The word itself is no date
    let word = "<key>date</key><string>update: dated (date)</string>";
    assert_eq!(gpus(&with_extra(word)).expect("word").len(), 1);
}

fn nested(levels: usize) -> String {
    format!(
        "<key>deep</key>{}{}",
        "<array>".repeat(levels),
        "</array>".repeat(levels)
    )
}

#[test]
fn a_list_has_few_levels() {
    assert_eq!(gpus(&with_extra(&nested(100))).expect("few").len(), 1);
    assert!(gpus(&with_extra(&nested(200))).is_none());
    assert!(gpus(&with_extra(&nested(200_000))).is_none());
    // Many collections side by side are no levels
    let wide = "<key>a</key><array/><key>b</key><dict></dict>".repeat(500);
    assert_eq!(gpus(&with_extra(&wide)).expect("wide").len(), 1);
    // An end tag in a comment is none
    let hidden = format!(
        "<key>deep</key>{}{}",
        "<array><!-- </array> -->".repeat(200),
        "</array>".repeat(200)
    );
    assert!(gpus(&with_extra(&hidden)).is_none());
}

#[test]
fn lists_without_tags_have_few_brackets() {
    let shallow = b"( { PerformanceStatistics = { \"Device Utilization %\" = 7 ; } ; } )".to_vec();
    assert_eq!(
        gpus(&shallow).expect("old style")[0].utilization_percent,
        percent(7.0)
    );
    let deep = format!("{}{}", "(".repeat(100_000), ")".repeat(100_000)).into_bytes();
    assert!(gpus(&deep).is_none());
    assert!(is_readable(&shallow));
    assert!(!is_readable(&deep));
    assert!(!is_readable(&b"bplist00 and more".to_vec()));
    assert!(is_readable(&plist(&"<string>(</string>".repeat(1000))));
}
