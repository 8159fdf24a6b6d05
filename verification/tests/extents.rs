use uffs_mft::error::{MftError, RetrievalFault};
use uffs_mft::ntfs::DataRun;
use uffs_mft::platform::extents::{
    data_runs_to_extents, parse_retrieval_pointers, QueryStep, RetrievalQuery,
};
use uffs_mft::platform::{Lcn, MftExtent};

#[test]
fn data_runs_map_to_extents_and_drop_sparse() {
    let runs = [
        DataRun {
            vcn: 0,
            cluster_count: 100,
            lcn: Lcn::new(5_000),
        },
        DataRun {
            vcn: 100,
            cluster_count: 50,
            lcn: Lcn::zero(),
        },
        DataRun {
            vcn: 150,
            cluster_count: 200,
            lcn: Lcn::new(9_000),
        },
    ];
    assert_eq!(
        data_runs_to_extents(&runs),
        vec![
            MftExtent {
                vcn: 0,
                cluster_count: 100,
                lcn: Lcn::new(5_000),
            },
            MftExtent {
                vcn: 150,
                cluster_count: 200,
                lcn: Lcn::new(9_000),
            },
        ],
    );
}

#[test]
fn data_runs_single_contiguous_fragment() {
    let runs = [DataRun {
        vcn: 0,
        cluster_count: 98_752,
        lcn: Lcn::new(786_432),
    }];
    assert_eq!(
        data_runs_to_extents(&runs),
        vec![MftExtent {
            vcn: 0,
            cluster_count: 98_752,
            lcn: Lcn::new(786_432),
        }],
    );
}

#[test]
fn data_runs_empty_yields_no_extents() {
    assert!(data_runs_to_extents(&[]).is_empty());
}

#[test]
fn byte_offset_returns_zero_for_sparse_extents() {
    for sparse in [Lcn::hole(), Lcn::new(-2), Lcn::new(i64::MIN)] {
        let extent = MftExtent {
            vcn: 0,
            cluster_count: 8,
            lcn: sparse,
        };
        for bpc in [512_u32, 4096, 65_536] {
            assert_eq!(extent.byte_offset(bpc), 0, "bpc={bpc}");
        }
    }
}

#[test]
fn byte_offset_matches_lcn_times_bytes_per_cluster() {
    let cases: [(i64, u32, u64); 4] = [
        (0, 4096, 0),
        (1, 4096, 4096),
        (1_234_567, 4096, 1_234_567_u64 * 4096),
        (1_000_000_000_000, 4096, 1_000_000_000_000_u64 * 4096),
    ];
    for (raw, bpc, expected) in cases {
        let extent = MftExtent {
            vcn: 0,
            cluster_count: 1,
            lcn: Lcn::new(raw),
        };
        assert_eq!(extent.byte_offset(bpc), expected, "lcn={raw} bpc={bpc}");
    }
}

#[test]
fn byte_size_independent_of_lcn() {
    for lcn in [Lcn::zero(), Lcn::hole(), Lcn::new(42), Lcn::new(i64::MAX)] {
        let extent = MftExtent {
            vcn: 0,
            cluster_count: 10,
            lcn,
        };
        assert_eq!(extent.byte_size(4096), 10 * 4096);
    }
}

fn pointer_buffer(start: i64, entries: &[(i64, i64)]) -> Vec<u8> {
    let mut b = Vec::new();
    b.extend_from_slice(&(entries.len() as u32).to_le_bytes());
    b.extend_from_slice(&[0; 4]);
    b.extend_from_slice(&start.to_le_bytes());
    for (next, lcn) in entries {
        b.extend_from_slice(&next.to_le_bytes());
        b.extend_from_slice(&lcn.to_le_bytes());
    }
    b
}

#[test]
fn retrieval_pointers_become_extents() {
    let buffer = pointer_buffer(0, &[(16, 1000), (24, -1), (40, 5000)]);
    let mut extents = Vec::new();
    parse_retrieval_pointers(&buffer, buffer.len(), &mut extents);
    assert_eq!(
        extents,
        vec![
            MftExtent {
                vcn: 0,
                cluster_count: 16,
                lcn: Lcn::new(1000),
            },
            MftExtent {
                vcn: 16,
                cluster_count: 8,
                lcn: Lcn::hole(),
            },
            MftExtent {
                vcn: 24,
                cluster_count: 16,
                lcn: Lcn::new(5000),
            },
        ]
    );
    for pair in extents.windows(2) {
        assert_eq!(pair[0].vcn + pair[0].cluster_count, pair[1].vcn);
    }
}

#[test]
fn retrieval_pointers_stop_where_the_answer_ends() {
    let buffer = pointer_buffer(0, &[(16, 1000), (24, 2000)]);
    let mut extents = Vec::new();
    parse_retrieval_pointers(&buffer, 11, &mut extents);
    assert!(extents.is_empty());
    parse_retrieval_pointers(&buffer, 47, &mut extents);
    assert_eq!(extents.len(), 1);
    parse_retrieval_pointers(&buffer[..40], 1000, &mut extents);
    assert_eq!(extents.len(), 2);
}

#[test]
fn entries_that_run_backwards_have_no_clusters() {
    let buffer = pointer_buffer(20, &[(10, 1000)]);
    let mut extents = Vec::new();
    parse_retrieval_pointers(&buffer, buffer.len(), &mut extents);
    assert_eq!(extents[0].cluster_count, 0);
    assert_eq!(extents[0].vcn, 20);
}

#[test]
fn query_grows_its_buffer_until_the_answer_fits() {
    let mut query = RetrievalQuery::new();
    assert_eq!(query.request(), Ok(65_536));
    assert_eq!(query.failed(0x8007_00EA), Ok(QueryStep::Again));
    assert_eq!(query.request(), Ok(131_072));
    let buffer = pointer_buffer(0, &[(16, 1000)]);
    query.answered(&buffer, buffer.len());
    assert_eq!(query.extents.len(), 1);
    assert_eq!(query.failed(0x8007_0005), Ok(QueryStep::Complete));
}

#[test]
fn query_ends_at_the_end_of_the_file() {
    let mut query = RetrievalQuery::new();
    assert_eq!(query.failed(38), Ok(QueryStep::Complete));
    assert!(query.extents.is_empty());
}

#[test]
fn query_fails_with_the_code_inside_the_result() {
    let mut query = RetrievalQuery::new();
    assert_eq!(
        query.failed(0x8007_0005),
        Err(MftError::RetrievalPointers(RetrievalFault::Query {
            hresult: 0x8007_0005,
            code: 5,
        }))
    );
    assert_eq!(
        query.failed(0x8000_4002),
        Err(MftError::RetrievalPointers(RetrievalFault::Query {
            hresult: 0x8000_4002,
            code: 0x8000_4002,
        }))
    );
}

#[test]
fn query_gives_up_on_buffers_that_are_too_large() {
    let mut query = RetrievalQuery::new();
    while query.buffer_size <= u64::from(u32::MAX) {
        assert_eq!(query.failed(234), Ok(QueryStep::Again));
    }
    assert_eq!(
        query.request(),
        Err(MftError::RetrievalPointers(RetrievalFault::BufferTooLarge(
            1 << 32
        )))
    );
}
