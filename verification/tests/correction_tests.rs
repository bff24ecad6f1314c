use codex32::correction::correction_table;
use codex32::correction::engine_to_residue;
use codex32::Engine;
use codex32::Fe;

#[test]
fn fresh_engine_residue_rendering() {
    // The initial residue is all zeros with a trailing one; adding the tag
    // flips only the last character of its rendering.
    let engine = Engine::new_codex32_short();
    assert_eq!(engine_to_residue(engine), "SECRETSHARE3T");
}

#[test]
fn zero_syndrome_renders_as_tag() {
    // A zeroed engine fed only zeros renders exactly as the tag.
    let mut engine = Engine::new_codex32_short();
    engine.force_residue_to_zero();
    for _ in 0..14 {
        engine.input_fe(Fe::from_int(0).unwrap());
    }
    assert_eq!(engine_to_residue(engine), "SECRETSHARE32");
}

#[test]
fn table_is_sorted_and_well_formed() {
    let table = correction_table(17, 2);
    assert!(table.len() > 0);
    for w in table.windows(2) {
        // Strictly ascending residues: sorted output with no duplicate.
        assert!(w[0].residue < w[1].residue);
    }
    for entry in &table {
        assert_eq!(entry.residue.len(), 13);
        assert!(entry.errors.len() == 1 || entry.errors.len() == 2);
        for err in &entry.errors {
            // Every listed error has a nonzero difference.
            assert!(err.diff.value() != 0);
            assert!(err.position < 14);
        }
        if entry.errors.len() == 2 {
            assert!(entry.errors[0].position < entry.errors[1].position);
        }
    }
}

#[test]
fn table_is_stable_between_runs() {
    let t1 = correction_table(17, 2);
    let t2 = correction_table(17, 2);
    assert_eq!(t1.len(), t2.len());
    for (a, b) in t1.iter().zip(t2.iter()) {
        assert_eq!(a.residue, b.residue);
        assert_eq!(a.errors.len(), b.errors.len());
        for (x, y) in a.errors.iter().zip(b.errors.iter()) {
            assert_eq!(x.position, y.position);
            assert_eq!(x.diff.value(), y.diff.value());
        }
    }
}

#[test]
fn table_contains_every_single_error_syndrome() {
    // Recompute each single-error syndrome with a bare engine and find it
    // in the table.
    let table = correction_table(17, 2);
    let data_len = 17 - 2 - 1;
    for i in 0..data_len - 13 {
        for d in 1..32u32 {
            let mut engine = Engine::new_codex32_short();
            engine.force_residue_to_zero();
            for scan in 0..data_len {
                if scan == i {
                    engine.input_fe(Fe::from_int(d).unwrap());
                } else {
                    engine.input_fe(Fe::from_int(0).unwrap());
                }
            }
            let syndrome = engine_to_residue(engine);
            assert!(table.iter().any(|e| e.residue == syndrome));
        }
    }
}
