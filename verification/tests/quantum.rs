//! Qubits, composite systems, measurement, gates and the filter on
//! concrete values.

use qubit::basis::Basis;
use qubit::braket::Ket;
use qubit::errors::QError;
use qubit::filter::Filter;
use qubit::qgates::cnot;
use qubit::qubit::Qubit;
use qubit::qubit_system::QubitSystem;

#[test]
fn test_measurement_deterministic_in_eigenbasis() {
    // A qubit prepared in the off eigenvector of the measurement basis
    // always measures off, and its state is unchanged.
    for _ in 0..20 {
        let mut q = Qubit::new(1, 0);
        let outcome = q.measure(&Basis::deg_0());
        assert!(!outcome);
        assert_eq!(q.get_state(), &Ket::new(vec![1, 0]));
    }
}

#[test]
fn test_measurement_certain_outcome_on() {
    // A qubit prepared in the on eigenvector always measures on; this
    // fails if the sampled draw were ever allowed to reach the bound.
    for _ in 0..20 {
        let mut q = Qubit::new(0, 1);
        let outcome = q.measure(&Basis::deg_0());
        assert!(outcome);
        assert_eq!(q.get_state(), &Ket::new(vec![0, 1]));
    }
}

#[test]
fn test_qubit_probabilities_sum_to_one() {
    let q = Qubit::new(3, 4);
    let p = q.get_probabilities(&Basis::deg_0());
    assert_eq!(p.off_num, 9);
    assert_eq!(p.on_num, 16);
    assert_eq!(p.den, 25);
    assert_eq!(p.off_num + p.on_num, p.den);

    let p90 = q.get_probabilities(&Basis::deg_90());
    assert_eq!(p90.off_num, 16);
    assert_eq!(p90.on_num, 9);
    assert_eq!(p90.off_num + p90.on_num, p90.den);
}

#[test]
fn test_qubit_probability_amplitudes() {
    let q = Qubit::new(3, 4);
    let amps = q.get_probability_amplitudes(&Basis::deg_90());
    assert_eq!(amps, Ket::new(vec![4, 3]));
}

#[test]
fn test_qubit_measure_with_draw_boundary() {
    // num_on of [3, 4] in the computational basis is 16 out of 25: draws
    // 0..=15 give "on", draws 16..=24 give "off".
    let mut q = Qubit::new(3, 4);
    assert!(q.measure_with_draw(&Basis::deg_0(), 15));
    assert_eq!(q.get_state(), &Ket::new(vec![0, 1]));

    let mut q2 = Qubit::new(3, 4);
    assert!(!q2.measure_with_draw(&Basis::deg_0(), 16));
    assert_eq!(q2.get_state(), &Ket::new(vec![1, 0]));
}

#[test]
fn test_system_measure_with_draw_boundary() {
    // The weights of qubit 0 in [3, -3, 4, -4] are 6 and 8, so "on" wins
    // 64 of the 100 draws; each outcome collapses to its own half.
    let sys = QubitSystem::from_qubit(Qubit::new(3, 4)).add_system(QubitSystem::from_qubit(
        Qubit::new(1, -1),
    ));
    let (on_half, resolved) = sys.measure_with_draw(0, &Basis::deg_0(), 63).unwrap();
    assert_eq!(on_half.get_state(), &Ket::new(vec![4, -4]));
    assert_eq!(resolved.get_state(), &Ket::new(vec![0, 1]));

    let sys2 = QubitSystem::from_qubit(Qubit::new(3, 4)).add_system(QubitSystem::from_qubit(
        Qubit::new(1, -1),
    ));
    let (off_half, resolved2) = sys2.measure_with_draw(0, &Basis::deg_0(), 64).unwrap();
    assert_eq!(off_half.get_state(), &Ket::new(vec![3, -3]));
    assert_eq!(resolved2.get_state(), &Ket::new(vec![1, 0]));
}

#[test]
fn test_from_qubit_conversion() {
    let sys: QubitSystem = Qubit::new(3, 4).into();
    assert_eq!(sys.get_state(), &Ket::new(vec![3, 4]));
    let sys2 = QubitSystem::from_qubit(Qubit::new(1, -1));
    assert_eq!(sys2.get_state(), &Ket::new(vec![1, -1]));
}

#[test]
fn test_add_system_preserves_norm() {
    let a = QubitSystem::from_qubit(Qubit::new(3, 4));
    let b = QubitSystem::from_qubit(Qubit::new(1, 2));
    let joint = a.add_system(b);
    assert_eq!(joint.get_state(), &Ket::new(vec![3, 6, 4, 8]));
    let norm_sq: i64 = joint.get_state().as_array().iter().map(|x| x * x).sum();
    assert_eq!(norm_sq, 125);
}

#[test]
fn test_composite_measurement_reduces_dimension() {
    // Both outcomes leave a one-qubit system carrying amplitude.
    for _ in 0..20 {
        let a = QubitSystem::from_qubit(Qubit::new(1, 1));
        let b = QubitSystem::from_qubit(Qubit::new(1, 1));
        let joint = a.add_system(b);
        assert_eq!(joint.get_state().as_array().len(), 4);
        let (smaller, resolved) = joint.measure(0, &Basis::deg_0()).unwrap();
        assert_eq!(smaller.get_state().as_array().len(), 2);
        assert_eq!(smaller.get_state(), &Ket::new(vec![1, 1]));
        let norm_sq: i64 = smaller.get_state().as_array().iter().map(|x| x * x).sum();
        assert_eq!(norm_sq, 2);
        let resolved_state = resolved.get_state();
        assert!(
            resolved_state == &Ket::new(vec![1, 0]) || resolved_state == &Ket::new(vec![0, 1])
        );
    }
}

#[test]
fn test_cnot() {
    // Control qubit set, target clear: |10> becomes |11>.
    let target = QubitSystem::from_qubit(Qubit::new(0, 1));
    let control = QubitSystem::from_qubit(Qubit::new(1, 0));
    let joint = target.add_system(control);
    assert_eq!(joint.get_state(), &Ket::new(vec![0, 0, 1, 0]));

    let flipped = cnot(joint);
    assert_eq!(flipped.get_state(), &Ket::new(vec![0, 0, 0, 1]));

    // A second controlled-not restores the state.
    let back = cnot(flipped);
    assert_eq!(back.get_state(), &Ket::new(vec![0, 0, 1, 0]));
}

#[test]
fn test_out_of_range_qubit_index() {
    let sys = QubitSystem::from_qubit(Qubit::new(1, 0)).add_system(QubitSystem::from_qubit(
        Qubit::new(1, 0),
    ));
    assert_eq!(
        sys.sum_abs_probability_amplitudes(2),
        Err(QError::InvalidQubitIndex)
    );
    assert_eq!(
        sys.get_probability_amplitudes(2, &Basis::deg_0()),
        Err(QError::InvalidQubitIndex)
    );
    assert_eq!(
        sys.get_probabilities(7, &Basis::deg_0()),
        Err(QError::InvalidQubitIndex)
    );
    match sys.measure(2, &Basis::deg_0()) {
        Err(e) => assert_eq!(e, QError::InvalidQubitIndex),
        Ok(_) => panic!("a two-qubit system has no qubit 2"),
    }
}

#[test]
fn test_sum_abs_probability_amplitudes() {
    let sys = QubitSystem::from_qubit(Qubit::new(3, 4)).add_system(QubitSystem::from_qubit(
        Qubit::new(1, -1),
    ));
    assert_eq!(sys.get_state(), &Ket::new(vec![3, -3, 4, -4]));
    assert_eq!(
        sys.sum_abs_probability_amplitudes(0),
        Ok(Ket::new(vec![6, 8]))
    );
    assert_eq!(
        sys.sum_abs_probability_amplitudes(1),
        Ok(Ket::new(vec![7, 7]))
    );
}

#[test]
fn test_system_probabilities_sum_to_one() {
    let sys = QubitSystem::from_qubit(Qubit::new(3, 4)).add_system(QubitSystem::from_qubit(
        Qubit::new(1, -1),
    ));
    let p = sys.get_probabilities(0, &Basis::deg_0()).unwrap();
    assert_eq!(p.off_num, 36);
    assert_eq!(p.on_num, 64);
    assert_eq!(p.den, 100);
    assert_eq!(p.off_num + p.on_num, p.den);
}

#[test]
fn test_skew_basis_reports_drift() {
    let skew = Basis::new(Ket::new(vec![1, 1]), Ket::new(vec![1, 1]));
    let sys = QubitSystem::from_qubit(Qubit::new(1, 0)).add_system(QubitSystem::from_qubit(
        Qubit::new(1, 0),
    ));
    match sys.measure(0, &skew) {
        Err(e) => assert_eq!(e, QError::NormalizationDrift),
        Ok(_) => panic!("the outcome weights of a skew basis do not exhaust the whole"),
    }
}

#[test]
fn test_rotated_basis_empty_half_reports_drift() {
    // In the 90 degree basis the state |00> always measures "on", but the
    // half of the amplitudes consistent with that outcome in the
    // computational gather is empty: the collapse is rejected rather than
    // producing a zero state.
    let sys = QubitSystem::from_qubit(Qubit::new(1, 0)).add_system(QubitSystem::from_qubit(
        Qubit::new(1, 0),
    ));
    match sys.measure(0, &Basis::deg_90()) {
        Err(e) => assert_eq!(e, QError::NormalizationDrift),
        Ok(_) => panic!("collapsing onto an empty half must be rejected"),
    }
}

#[test]
fn test_measurement_collapses_composite_state() {
    // |10>: measuring qubit 0 in the computational basis always gives
    // "on" and leaves the target qubit state |0>.
    for _ in 0..10 {
        let high = QubitSystem::from_qubit(Qubit::new(0, 1));
        let low = QubitSystem::from_qubit(Qubit::new(1, 0));
        let joint = high.add_system(low);
        assert_eq!(joint.get_state(), &Ket::new(vec![0, 0, 1, 0]));
        let (smaller, resolved) = joint.measure(0, &Basis::deg_0()).unwrap();
        assert_eq!(resolved.get_state(), &Ket::new(vec![0, 1]));
        assert_eq!(smaller.get_state(), &Ket::new(vec![1, 0]));
    }
}

#[test]
fn test_filter_counts() {
    let mut filter = Filter::new(Basis::deg_0(), true);

    let passed = filter.filter(Qubit::new(0, 1));
    assert!(passed.is_some());
    assert_eq!(passed.unwrap().get_state(), &Ket::new(vec![0, 1]));
    assert_eq!(filter.num_passed, 1);
    assert_eq!(filter.num_total, 1);

    let blocked = filter.filter(Qubit::new(1, 0));
    assert!(blocked.is_none());
    assert_eq!(filter.num_passed, 1);
    assert_eq!(filter.num_total, 2);

    filter.reset();
    assert_eq!(filter.num_passed, 0);
    assert_eq!(filter.num_total, 0);
}

#[test]
fn test_basis_accessors() {
    let b = Basis::deg_90();
    assert_eq!(
        b.as_bra().as_array(),
        &vec![Ket::new(vec![0, 1]), Ket::new(vec![1, 0])]
    );
    let custom = Basis::new(Ket::new(vec![1, 0]), Ket::new(vec![0, -1]));
    assert_eq!(
        custom.into_bra().as_array(),
        &vec![Ket::new(vec![1, 0]), Ket::new(vec![0, -1])]
    );
}
