use csm_rs::laser_data::{
    check_capacity, check_length, check_nrays, check_polar_lengths, check_rays, check_scan,
    check_update_lengths, check_valid_share, check_workspace_capacities, count_valid,
    create_jump_tables, find_neighbours, first_duplicate_bearing, hide_bearing_reversals,
    invalid_if_outside, next_valid, order_key, ScanFacts,
};
use csm_rs::text::decimal_text;
use csm_rs::{CorrespondenceType, LaserDataError, OrderKey, RayCheck, ScanError};

/// Order key of a reading.
fn key(x: f64) -> OrderKey {
    order_key(x.to_bits())
}

fn keys(values: &[f64]) -> Vec<OrderKey> {
    values.iter().map(|&v| key(v)).collect()
}

#[test]
fn order_keys_follow_float_order() {
    let values = [
        f64::NEG_INFINITY,
        -f64::MAX,
        -3.5,
        -1.0,
        -f64::MIN_POSITIVE,
        -5e-324,
        -0.0,
        0.0,
        5e-324,
        1e-300,
        f64::MIN_POSITIVE,
        2.0,
        1e300,
        f64::MAX,
        f64::INFINITY,
    ];
    for a in values {
        for b in values {
            assert_eq!(key(a) <= key(b), a <= b, "{a} <= {b}");
            assert_eq!(key(a) < key(b), a < b, "{a} < {b}");
            assert_eq!(key(a) == key(b), a == b, "{a} == {b}");
        }
    }
}

#[test]
fn order_keys_of_nans_are_none() {
    assert_eq!(key(f64::NAN), None);
    assert_eq!(key(-f64::NAN), None);
    assert_eq!(order_key(0x7FF0_0000_0000_0001), None);
    assert_eq!(order_key(0xFFFF_FFFF_FFFF_FFFF), None);
    // The infinities are not NaNs.
    assert_eq!(order_key(0x7FF0_0000_0000_0000), Some(0xFFF0_0000_0000_0000));
    assert_eq!(order_key(0xFFF0_0000_0000_0000), Some(0x000F_FFFF_FFFF_FFFF));
}

#[test]
fn order_keys_have_exact_values() {
    // Both zeros sit at 2^63; positive values above it, negative below.
    assert_eq!(key(0.0), Some(1 << 63));
    assert_eq!(key(-0.0), Some(1 << 63));
    assert_eq!(key(1.0), Some((1 << 63) + 0x3FF0_0000_0000_0000));
    assert_eq!(key(-1.0), Some((1 << 63) - 1 - 0x3FF0_0000_0000_0000));
    assert_eq!(key(5e-324), Some((1 << 63) + 1));
    assert_eq!(key(-5e-324), Some((1 << 63) - 2));
}

#[test]
fn jump_tables_hand_computed_example() {
    // readings = [3, 1, 2, 2, 5, 4], all valid
    let valid = vec![true; 6];
    let readings = keys(&[3.0, 1.0, 2.0, 2.0, 5.0, 4.0]);
    let t = create_jump_tables(&valid, &readings);
    assert_eq!(t.up_bigger, [4, 1, 2, 1, 2, 1]);
    assert_eq!(t.up_smaller, [1, 5, 4, 3, 1, 1]);
    assert_eq!(t.down_smaller, [-1, -2, -1, -2, -1, -2]);
    assert_eq!(t.down_bigger, [-1, -1, -2, -3, -5, -1]);
}

#[test]
fn jump_tables_stop_at_invalid_rays() {
    let mut valid = vec![true; 10];
    let readings = keys(&[5.0; 10]);
    valid[4] = false;
    let t = create_jump_tables(&valid, &readings);
    // From ray 0, up_bigger walks while readings[j] <= 5.0 — stops at j=4 (invalid)
    assert_eq!(t.up_bigger[0], 4);
    assert_eq!(t.down_bigger[9], 4 - 9);
}

#[test]
fn jump_tables_treat_nan_readings_as_incomparable() {
    let valid = vec![true; 4];
    let readings = keys(&[1.0, f64::NAN, 1.0, 1.0]);
    let t = create_jump_tables(&valid, &readings);
    assert_eq!(t.up_bigger[0], 1);
    assert_eq!(t.up_bigger[1], 1);
    assert_eq!(t.down_smaller[1], -1);
    assert_eq!(t.up_bigger[2], 2);
}

#[test]
fn empty_scan_has_empty_jump_tables() {
    let t = create_jump_tables(&[], &[]);
    assert!(t.up_bigger.is_empty() && t.down_smaller.is_empty());
}

#[test]
fn find_neighbours_walks_cluster_both_ways() {
    let valid = vec![true; 10];
    let cluster = vec![0; 10];
    assert_eq!(find_neighbours(&valid, &cluster, 5, 2), vec![6, 7, 4, 3, 2]);
    assert_eq!(find_neighbours(&valid, &cluster, 0, 2), vec![1, 2]);
}

#[test]
fn find_neighbours_stops_at_cluster_change() {
    let valid = vec![true; 10];
    let mut cluster = vec![0; 10];
    for c in cluster.iter_mut().skip(6) {
        *c = 1;
    }
    assert_eq!(find_neighbours(&valid, &cluster, 5, 2), vec![4, 3, 2]);
}

#[test]
fn find_neighbours_stops_at_invalid_rays_and_negative_sizes() {
    let mut valid = vec![true; 10];
    valid[7] = false;
    let cluster = vec![0; 10];
    assert_eq!(find_neighbours(&valid, &cluster, 5, 3), vec![6, 4, 3, 2, 1]);
    assert_eq!(find_neighbours(&valid, &cluster, 5, -1), Vec::<usize>::new());
    assert_eq!(find_neighbours(&valid, &cluster, 5, 0), vec![4]);
}

#[test]
fn next_valid_skips_invalid_rays() {
    let valid = [true, false, false, true, false];
    assert_eq!(next_valid(&valid, 0, 1), Some(3));
    assert_eq!(next_valid(&valid, 3, -1), Some(0));
    assert_eq!(next_valid(&valid, 3, 1), None);
    assert_eq!(next_valid(&valid, 0, -1), None);
    // Past the end: nothing above; from one past the last ray, the last
    // valid ray below.
    assert_eq!(next_valid(&valid, 4, 1), None);
    assert_eq!(next_valid(&valid, 9, 1), None);
    assert_eq!(next_valid(&valid, 5, -1), Some(3));
    assert_eq!(next_valid(&valid, 6, -1), None);
}

#[test]
fn invalid_if_outside_marks_rays() {
    let mut valid = vec![true; 10];
    let mut readings = vec![5.0; 10];
    readings[0] = 0.5; // below min
    readings[1] = 5.0; // inside
    readings[2] = 10.0; // above max (strictly greater)
    readings[3] = 2.0; // boundary: equal to min -> invalid (r <= min)
    readings[4] = 7.0; // boundary: equal to max -> stays valid
    invalid_if_outside(&mut valid, &keys(&readings), key(2.0), key(7.0));
    assert!(!valid[0]);
    assert!(valid[1]);
    assert!(!valid[2]);
    assert!(!valid[3]);
    assert!(valid[4]);
}

#[test]
fn invalid_if_outside_keeps_invalid_and_nan_rays_as_they_are() {
    let mut valid = vec![false, true, true];
    let readings = keys(&[5.0, f64::NAN, 1.0]);
    invalid_if_outside(&mut valid, &readings, key(2.0), key(7.0));
    assert_eq!(valid, [false, true, false]);
    // A second pass changes nothing.
    let again = valid.clone();
    invalid_if_outside(&mut valid, &readings, key(2.0), key(7.0));
    assert_eq!(valid, again);
}

#[test]
fn visibility_test_invalidates_bearing_reversals() {
    let mut valid = vec![true; 10];
    let viewpoint = [0.0f64, 0.0];
    let bearings: Vec<OrderKey> = (0..10)
        .map(|i| {
            let angle = if i == 5 { -1.0 } else { -1.0 + 0.2 * i as f64 };
            let p = [-f64::cos(angle), -f64::sin(angle)];
            key((viewpoint[1] - p[1]).atan2(viewpoint[0] - p[0]))
        })
        .collect();
    hide_bearing_reversals(&mut valid, &bearings);
    assert!((0..10).filter(|&i| !valid[i]).eq([5]));
}

#[test]
fn visibility_compares_with_the_previous_surviving_ray() {
    // Ray 1 is hidden by ray 0; ray 2 is then compared with ray 1, which is no
    // longer valid, so it stays.
    let mut valid = vec![true, true, true];
    hide_bearing_reversals(&mut valid, &keys(&[3.0, 1.0, 2.0]));
    assert_eq!(valid, [true, false, true]);
}

#[test]
fn duplicate_bearings_are_found_between_valid_neighbours() {
    let bearings = keys(&[0.0, 0.1, 0.1, 0.2, 0.2]);
    assert_eq!(
        first_duplicate_bearing(&[true, true, true, true, true], &bearings),
        Some(2)
    );
    assert_eq!(
        first_duplicate_bearing(&[true, false, true, false, true], &bearings),
        None
    );
    assert_eq!(first_duplicate_bearing(&[true, true, false, true, true], &bearings), Some(4));
}

#[test]
fn polar_lengths_are_checked_by_field_name() {
    assert_eq!(check_polar_lengths(10, 10, 10), Ok(()));
    assert_eq!(
        check_polar_lengths(10, 9, 10),
        Err(ScanError::InconsistentLengths {
            field: "readings",
            expected: 10,
            actual: 9,
        })
    );
    assert_eq!(
        check_polar_lengths(10, 10, 9),
        Err(ScanError::InconsistentLengths {
            field: "valid",
            expected: 10,
            actual: 9,
        })
    );
    assert_eq!(
        check_length("sigma", 4, 5),
        Err(ScanError::InconsistentLengths {
            field: "sigma",
            expected: 4,
            actual: 5,
        })
    );
}

#[test]
fn capacity_overflow_is_reported() {
    assert_eq!(check_capacity(21, 21), Ok(()));
    assert_eq!(
        check_capacity(21, 22),
        Err(ScanError::CapacityExceeded {
            capacity: 21,
            requested: 22,
        })
    );
    assert_eq!(check_workspace_capacities(1, 1), Ok((1, 1)));
    assert_eq!(check_workspace_capacities(3_500, 200), Ok((3_500, 200)));
    assert_eq!(
        check_workspace_capacities(0, 5),
        Err(ScanError::NraysOutOfRange)
    );
}

#[test]
fn updates_must_keep_the_scan_shape() {
    assert_eq!(check_update_lengths("readings", 21, 21, 21), Ok(()));
    assert_eq!(
        check_update_lengths("readings", 21, 22, 21),
        Err(ScanError::CapacityExceeded {
            capacity: 21,
            requested: 22,
        })
    );
    assert_eq!(
        check_update_lengths("points", 21, 20, 21),
        Err(ScanError::InconsistentLengths {
            field: "points",
            expected: 21,
            actual: 20,
        })
    );
    assert_eq!(
        check_update_lengths("readings", 21, 21, 20),
        Err(ScanError::InconsistentLengths {
            field: "valid",
            expected: 21,
            actual: 20,
        })
    );
}

#[test]
fn nrays_must_be_between_10_and_10000() {
    assert_eq!(check_nrays(5), Err(LaserDataError::NraysOutOfRange));
    assert_eq!(check_nrays(10), Ok(()));
    assert_eq!(check_nrays(10000), Ok(()));
    assert_eq!(check_nrays(10001), Err(LaserDataError::NraysOutOfRange));
}

fn ray(valid: bool, cluster: i32) -> RayCheck {
    RayCheck {
        valid,
        cluster,
        reading_ok: true,
        theta_nan: false,
        sigma_negative: false,
    }
}

#[test]
fn ray_checks_report_the_first_malformed_ray() {
    let mut rays = vec![ray(true, -1); 100];
    assert_eq!(check_rays(&rays), Ok(()));
    rays[42].reading_ok = false;
    assert_eq!(check_rays(&rays), Err(LaserDataError::BadValidRay(42)));
    rays[9].sigma_negative = true;
    assert_eq!(check_rays(&rays), Err(LaserDataError::NegativeSigma(9)));
    rays[3] = ray(false, 2);
    assert_eq!(check_rays(&rays), Err(LaserDataError::BadCluster(3)));
    rays[1] = RayCheck {
        theta_nan: true,
        ..ray(false, -1)
    };
    assert_eq!(check_rays(&rays), Err(LaserDataError::BadValidRay(1)));
    rays[0] = ray(true, -2);
    assert_eq!(check_rays(&rays), Err(LaserDataError::BadCluster(0)));
}

#[test]
fn a_bad_reading_on_an_invalid_ray_is_accepted() {
    let rays = vec![
        RayCheck {
            reading_ok: false,
            ..ray(false, -1)
        };
        10
    ];
    assert_eq!(check_rays(&rays), Ok(()));
}

#[test]
fn scan_error_messages() {
    assert_eq!(
        LaserDataError::NraysOutOfRange.to_string(),
        "invalid number of rays (need 10..=10000)"
    );
    assert_eq!(
        LaserDataError::BadValidRay(42).to_string(),
        "ray #42: NaN or out-of-(0,100) reading on valid ray"
    );
    assert_eq!(
        LaserDataError::BadCluster(3).to_string(),
        "ray #3: bad cluster value"
    );
    assert_eq!(
        LaserDataError::NegativeSigma(9).to_string(),
        "ray #9: negative readings_sigma"
    );
    assert_eq!(
        LaserDataError::TooFewValidRays.to_string(),
        "fewer than 10% valid rays"
    );
    assert_eq!(
        LaserDataError::InconsistentLengths {
            field: "readings",
            expected: 10,
            actual: 9
        }
        .to_string(),
        "readings: expected 10 entries, got 9"
    );
    assert_eq!(
        LaserDataError::CapacityExceeded {
            capacity: 21,
            requested: 1024
        }
        .to_string(),
        "scan of 1024 rays exceeds the reserved capacity of 21"
    );
    assert!(LaserDataError::NonFiniteGuess.to_string().contains("initial pose"));
}

#[test]
fn decimal_text_renders_numbers() {
    assert_eq!(decimal_text(0), "0");
    assert_eq!(decimal_text(7), "7");
    assert_eq!(decimal_text(10), "10");
    assert_eq!(decimal_text(1234567890), "1234567890");
    assert_eq!(decimal_text(usize::MAX), usize::MAX.to_string());
}

#[test]
fn correspondence_type_defaults_to_point_to_point() {
    assert_eq!(CorrespondenceType::default(), CorrespondenceType::PointToPoint);
}

/// A scan as the structural validation sees it.
struct Scan {
    nrays: usize,
    min_theta: f64,
    max_theta: f64,
    theta: Vec<f64>,
    valid: Vec<bool>,
    readings: Vec<f64>,
    readings_sigma: Vec<f64>,
    cluster: Vec<i32>,
}

impl Scan {
    /// 100 valid rays over [-1.5, 1.5] reading 5.0, no clusters, no sigma.
    fn well_formed() -> Scan {
        Scan::over(100, -1.5, 1.5)
    }

    /// `nrays` valid rays evenly spread over [min, max] reading 5.0.
    fn over(nrays: usize, min_theta: f64, max_theta: f64) -> Scan {
        let step = (max_theta - min_theta) / (nrays.max(2) - 1) as f64;
        Scan {
            nrays,
            min_theta,
            max_theta,
            theta: (0..nrays).map(|i| min_theta + step * i as f64).collect(),
            valid: vec![true; nrays],
            readings: vec![5.0; nrays],
            readings_sigma: vec![f64::NAN; nrays],
            cluster: vec![-1; nrays],
        }
    }

    /// The outcome of the floating-point tests of the validation.
    fn facts(&self) -> ScanFacts {
        let fov = self.max_theta - self.min_theta;
        let near = |bound: f64, theta: Option<&f64>| {
            theta.is_some_and(|&theta| !((bound - theta).abs() > 1e-8))
        };
        ScanFacts {
            nrays: self.nrays,
            bounds_nan: self.min_theta.is_nan() || self.max_theta.is_nan(),
            fov_in_range: !(fov < 20.0f64.to_radians() || fov > 2.01 * std::f64::consts::PI),
            bounds_match: near(self.min_theta, self.theta.first())
                && near(self.max_theta, self.theta.last()),
            theta_nan: self.theta.iter().map(|t| t.is_nan()).collect(),
            valid: self.valid.clone(),
            reading_in_range: self
                .readings
                .iter()
                .map(|&r| !(r.is_nan() || !(0.0 < r && r < 100.0)))
                .collect(),
            sigma_negative: self
                .readings_sigma
                .iter()
                .map(|&s| !s.is_nan() && s < 0.0)
                .collect(),
            cluster: self.cluster.clone(),
        }
    }

    fn validate(&self) -> Result<(), LaserDataError> {
        check_scan(&self.facts())
    }
}

#[test]
fn validate_accepts_well_formed_scan() {
    assert_eq!(Scan::well_formed().validate(), Ok(()));
}

#[test]
fn validate_rejects_too_few_rays() {
    assert_eq!(
        Scan::over(5, -1.0, 1.0).validate(),
        Err(LaserDataError::NraysOutOfRange)
    );
}

#[test]
fn validate_rejects_narrow_fov() {
    assert_eq!(
        Scan::over(100, 0.0, 0.1).validate(),
        Err(LaserDataError::FovOutOfRange)
    );
}

#[test]
fn validate_rejects_theta_bounds_mismatch() {
    let mut scan = Scan::well_formed();
    scan.min_theta = scan.theta[0] + 1e-6;
    assert_eq!(scan.validate(), Err(LaserDataError::ThetaBoundsMismatch));
}

#[test]
fn validate_rejects_nan_reading_on_valid_ray() {
    let mut scan = Scan::well_formed();
    scan.readings[42] = f64::NAN;
    assert_eq!(scan.validate(), Err(LaserDataError::BadValidRay(42)));
}

#[test]
fn validate_rejects_reading_outside_sensor_range() {
    let mut scan = Scan::well_formed();
    scan.readings[7] = 150.0;
    assert_eq!(scan.validate(), Err(LaserDataError::BadValidRay(7)));
}

#[test]
fn validate_rejects_cluster_on_invalid_ray() {
    let mut scan = Scan::well_formed();
    scan.valid[3] = false;
    scan.cluster[3] = 2;
    assert_eq!(scan.validate(), Err(LaserDataError::BadCluster(3)));
}

#[test]
fn validate_rejects_negative_sigma() {
    let mut scan = Scan::well_formed();
    scan.readings_sigma[9] = -1.0;
    assert_eq!(scan.validate(), Err(LaserDataError::NegativeSigma(9)));
}

#[test]
fn validate_rejects_too_few_valid_rays() {
    // 5 valid rays out of 100
    let mut scan = Scan::well_formed();
    for v in scan.valid.iter_mut().skip(5) {
        *v = false;
    }
    assert_eq!(scan.validate(), Err(LaserDataError::TooFewValidRays));
}

#[test]
fn public_matcher_returns_malformed_input_as_an_error() {
    let mut scan = Scan::over(10, -1.0, 1.0);
    scan.theta.pop();
    assert_eq!(
        scan.validate(),
        Err(LaserDataError::InconsistentLengths {
            field: "theta",
            expected: 10,
            actual: 9,
        })
    );
}

#[test]
fn raw_polar_constructor_rejects_all_invalid_rays() {
    let mut scan = Scan::over(10, -1.0, 1.0);
    scan.readings = vec![f64::NAN; 10];
    scan.valid = vec![false; 10];
    assert_eq!(scan.validate(), Err(LaserDataError::TooFewValidRays));
}

#[test]
fn validation_checks_storage_before_contents() {
    // Storage lengths are checked field by field, before the ray count.
    let mut scan = Scan::over(5, -1.0, 1.0);
    scan.cluster.push(-1);
    scan.readings_sigma.pop();
    assert_eq!(
        scan.validate(),
        Err(LaserDataError::InconsistentLengths {
            field: "readings_sigma",
            expected: 5,
            actual: 4,
        })
    );
    scan.readings_sigma.push(f64::NAN);
    assert_eq!(
        scan.validate(),
        Err(LaserDataError::InconsistentLengths {
            field: "cluster",
            expected: 5,
            actual: 6,
        })
    );
    scan.cluster.pop();
    assert_eq!(scan.validate(), Err(LaserDataError::NraysOutOfRange));
}

#[test]
fn validation_reports_the_first_failing_check() {
    // NaN bounds come before the field of view and the bound mismatch.
    let mut scan = Scan::well_formed();
    scan.readings[0] = f64::NAN;
    scan.max_theta = f64::NAN;
    assert_eq!(scan.validate(), Err(LaserDataError::NanThetaBounds));
    // A malformed ray comes before too few valid rays.
    let mut scan = Scan::well_formed();
    for v in scan.valid.iter_mut().skip(1) {
        *v = false;
    }
    scan.cluster[50] = 4;
    assert_eq!(scan.validate(), Err(LaserDataError::BadCluster(50)));
    // A bad bearing on an invalid ray is a bad ray.
    let mut scan = Scan::well_formed();
    scan.valid[20] = false;
    scan.theta[20] = f64::NAN;
    assert_eq!(scan.validate(), Err(LaserDataError::BadValidRay(20)));
}

#[test]
fn one_valid_ray_in_ten_is_enough() {
    let mut valid = vec![false; 10];
    valid[0] = true;
    assert_eq!(check_valid_share(&valid), Ok(()));
    assert_eq!(count_valid(&valid), 1);
    assert_eq!(check_valid_share(&[false; 10]), Err(LaserDataError::TooFewValidRays));
}

#[test]
fn valid_share_matches_the_floating_point_threshold() {
    for nrays in 10..=300usize {
        for count in 0..=nrays {
            let mut valid = vec![false; nrays];
            for v in valid.iter_mut().take(count) {
                *v = true;
            }
            let float_rejects = (count as f64) < nrays as f64 * 0.10;
            assert_eq!(check_valid_share(&valid).is_err(), float_rejects);
        }
    }
}
