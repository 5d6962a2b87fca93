use icp_core::error::IcpError;
use icp_core::pairing::paired_len;
use icp_core::solver::begin_fit;
use icp_core::solver::within;
use icp_core::solver::Assessment;
use icp_core::solver::Estimate;
use icp_core::solver::Limits;
use icp_core::solver::Repair;

fn limits() -> Limits {
    Limits { residual: 1e-5f64.to_bits(), displacement: 0.35f64.to_bits() }
}

fn keys(rows: &[[f64; 3]]) -> Vec<[u64; 3]> {
    rows.iter().map(|r| [r[0].to_bits(), r[1].to_bits(), r[2].to_bits()]).collect()
}

#[test]
fn paired_len_is_the_common_size() {
    assert_eq!(paired_len(2, 2), Ok(2));
    assert_eq!(paired_len(1, 1), Ok(1));
    assert_eq!(paired_len(usize::MAX, usize::MAX), Ok(usize::MAX));
}

#[test]
fn paired_len_rejects_empty_sets() {
    assert_eq!(paired_len(0, 0), Err(IcpError::InvalidInput));
}

#[test]
fn paired_len_rejects_sizes_that_differ() {
    assert_eq!(paired_len(2, 3), Err(IcpError::InvalidInput));
    assert_eq!(paired_len(0, 3), Err(IcpError::InvalidInput));
    assert_eq!(paired_len(3, 0), Err(IcpError::InvalidInput));
}

#[test]
fn begin_fit_rejects_empty_and_mismatched_sets() {
    assert!(matches!(begin_fit(0, 0, limits()), Err(IcpError::InvalidInput)));
    assert!(matches!(begin_fit(30, 29, limits()), Err(IcpError::InvalidInput)));
    assert!(matches!(begin_fit(0, 30, limits()), Err(IcpError::InvalidInput)));
    let stage = begin_fit(30, 30, limits()).unwrap();
    assert_eq!(stage.pairs(), 30);
}

#[test]
fn reflection_is_repaired_and_rotation_is_kept() {
    let stage = begin_fit(2, 2, limits()).unwrap();
    assert_eq!(stage.orientation(true).repair(), Repair::NegateThirdColumn);
    let stage = begin_fit(2, 2, limits()).unwrap();
    assert_eq!(stage.orientation(false).repair(), Repair::Keep);
}

#[test]
fn within_is_strict_on_every_axis() {
    let bound = 1e-5f64.to_bits();
    assert!(within(&keys(&[[0.0, 0.0, 0.0], [9e-6, 1e-7, 0.0]]), bound));
    assert!(!within(&keys(&[[0.0, 0.0, 0.0], [1e-5, 0.0, 0.0]]), bound));
    assert!(!within(&keys(&[[0.0, 2e-5, 0.0]]), bound));
    assert!(!within(&keys(&[[0.0, 0.0, 0.0], [0.0, 0.0, 0.0], [0.0, 0.0, 1.0]]), bound));
    assert!(within(&Vec::new(), bound));
    assert!(!within(&vec![[0, 0, 0]], 0));
}

#[test]
fn small_residuals_accept_the_fit() {
    let stage = begin_fit(2, 2, limits()).unwrap().orientation(false);
    let assessment = stage.residuals(keys(&[[1e-9, 0.0, 2e-7], [0.0, 9.9e-6, 0.0]])).unwrap();
    assert!(matches!(assessment, Assessment::Fitted));
}

#[test]
fn large_residuals_with_small_motion_fall_back_on_translation() {
    let stage = begin_fit(2, 2, limits()).unwrap().orientation(false);
    let assessment = stage.residuals(keys(&[[1e-9, 0.0, 0.0], [0.0, 3e-3, 0.0]])).unwrap();
    let stage = match assessment {
        Assessment::Doubtful(stage) => stage,
        Assessment::Fitted => panic!("a residual is out of tolerance"),
    };
    let outcome = stage.displacements(keys(&[[0.1, 0.05, 0.0], [0.34, 0.2, 0.1]]));
    assert_eq!(outcome, Ok(Estimate::PureTranslation));
}

#[test]
fn large_residuals_with_large_motion_keep_the_fit() {
    let stage = begin_fit(2, 2, limits()).unwrap().orientation(true);
    let assessment = stage.residuals(keys(&[[1.0, 0.0, 0.0], [0.0, 0.0, 0.0]])).unwrap();
    let stage = match assessment {
        Assessment::Doubtful(stage) => stage,
        Assessment::Fitted => panic!("a residual is out of tolerance"),
    };
    let outcome = stage.displacements(keys(&[[0.1, 0.05, 0.0], [0.35, 0.2, 0.1]]));
    assert_eq!(outcome, Ok(Estimate::Fitted));
}

#[test]
fn residuals_must_be_one_per_pair() {
    let stage = begin_fit(2, 2, limits()).unwrap().orientation(false);
    assert!(matches!(stage.residuals(keys(&[[0.0, 0.0, 0.0]])), Err(IcpError::InvalidInput)));
}

#[test]
fn displacements_must_be_one_per_pair() {
    let stage = begin_fit(1, 1, limits()).unwrap().orientation(false);
    let assessment = stage.residuals(keys(&[[1.0, 0.0, 0.0]])).unwrap();
    let stage = match assessment {
        Assessment::Doubtful(stage) => stage,
        Assessment::Fitted => panic!("a residual is out of tolerance"),
    };
    assert_eq!(stage.displacements(Vec::new()), Err(IcpError::InvalidInput));
}
