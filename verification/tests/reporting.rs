use branchwater_server::dataset::MatchRecord;
use branchwater_server::report::{
    accession_label, header, row_text, table_text, AggregateReport, Containment,
};

#[test]
fn the_accession_is_the_last_component_up_to_its_first_dot() {
    assert_eq!(accession_label("SRR123456"), "SRR123456");
    assert_eq!(accession_label("SRR123456.sig"), "SRR123456");
    assert_eq!(accession_label("/data/sigs/SRR123456.sig"), "SRR123456");
    assert_eq!(accession_label("sigs/SRR123456.sig.gz"), "SRR123456");
    assert_eq!(accession_label("wort.v1/sra/ERR99.sig"), "ERR99");
    assert_eq!(accession_label("a.b/c"), "c");
}

#[test]
fn the_accession_of_odd_identities() {
    assert_eq!(accession_label(""), "");
    assert_eq!(accession_label("/"), "");
    assert_eq!(accession_label("dir/"), "");
    assert_eq!(accession_label(".hidden"), "");
    assert_eq!(accession_label("dir/.hidden"), "");
    assert_eq!(accession_label("."), "");
    assert_eq!(accession_label("a//b"), "b");
    assert_eq!(accession_label("donn\u{e9}es/\u{e9}chantillon.sig"), "\u{e9}chantillon");
    assert_eq!(accession_label("\u{4e2d}\u{6587}"), "\u{4e2d}\u{6587}");
}

#[test]
fn the_accession_is_what_splitting_gives() {
    let paths = [
        "x", "x.y", "x/y", "x/y.z", "/x", "x/", ".x", "x.", "a/b/c.d.e", "a.b/c.d/e", "..", "//",
        "a/./b", "\u{e9}/\u{e9}.\u{e9}",
    ];
    for path in paths.iter() {
        let want = path.split('/').last().unwrap().split('.').next().unwrap();
        assert_eq!(accession_label(path), want);
    }
}

#[test]
fn the_header_names_the_columns() {
    assert_eq!(header(), "SRA accession,containment");
}

#[test]
fn lines_follow_the_ranking() {
    let report = AggregateReport {
        ranking: vec![
            MatchRecord { dataset_id: "sigs/SRR1.sig".to_string(), intersection_size: 50 },
            MatchRecord { dataset_id: "other/SRR1.sig".to_string(), intersection_size: 20 },
            MatchRecord { dataset_id: "SRR2".to_string(), intersection_size: 0 },
        ],
        query_size: 200,
    };
    let lines = report.lines();
    assert_eq!(lines.len(), 3);
    assert_eq!(lines[0].accession, "SRR1");
    assert_eq!(lines[0].containment, Containment { shared: 50, total: 200 });
    assert_eq!(lines[1].accession, "SRR1");
    assert_eq!(lines[1].containment, Containment { shared: 20, total: 200 });
    assert_eq!(lines[2].accession, "SRR2");
    assert_eq!(lines[2].containment, Containment { shared: 0, total: 200 });
    let values: Vec<f64> =
        lines.iter().map(|l| l.containment.shared as f64 / l.containment.total as f64).collect();
    assert_eq!(values, vec![0.25, 0.1, 0.0]);
}

#[test]
fn a_row_is_the_accession_a_comma_and_the_containment() {
    assert_eq!(row_text("SRR1", "0.55"), "SRR1,0.55");
    assert_eq!(row_text("", ""), ",");
    assert_eq!(row_text("a,b", "1"), "a,b,1");
    assert_eq!(row_text("\u{e9}", "NaN"), "\u{e9},NaN");
}

#[test]
fn a_table_is_the_header_and_the_rows_one_to_a_line() {
    assert_eq!(table_text(&Vec::new()), "SRA accession,containment");
    assert_eq!(
        table_text(&vec!["sampleX,0.55".to_string()]),
        "SRA accession,containment\nsampleX,0.55"
    );
    assert_eq!(
        table_text(&vec!["sampleX,0.55".to_string(), "sampleY,0.1".to_string()]),
        "SRA accession,containment\nsampleX,0.55\nsampleY,0.1"
    );
    assert_eq!(
        table_text(&vec![String::new(), String::new()]),
        "SRA accession,containment\n\n"
    );
    let rows = vec!["a,1".to_string(), "b,0.5".to_string(), "c,0".to_string()];
    let mut want = vec!["SRA accession,containment".to_string()];
    want.extend(rows.iter().cloned());
    assert_eq!(table_text(&rows), want.join("\n"));
}

#[test]
fn a_report_is_written_from_its_lines() {
    let report = AggregateReport {
        ranking: vec![
            MatchRecord { dataset_id: "sigs/sampleX.sig".to_string(), intersection_size: 55 },
            MatchRecord { dataset_id: "sigs/sampleY.sig".to_string(), intersection_size: 10 },
        ],
        query_size: 100,
    };
    let rows: Vec<String> = report
        .lines()
        .iter()
        .map(|line| {
            let containment = line.containment.shared as f64 / line.containment.total as f64;
            row_text(&line.accession, &containment.to_string())
        })
        .collect();
    assert_eq!(table_text(&rows), "SRA accession,containment\nsampleX,0.55\nsampleY,0.1");
}
