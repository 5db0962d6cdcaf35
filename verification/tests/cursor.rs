//! The state file: what a resumed run reads, and what it refuses to read.

use metsuke::count::NonZeroU64;
use metsuke::fetch::cursor::{Cursor, CursorError, StateFile};
use metsuke::fetch::provenance::{claim, Claim, ProvenanceError, Record, Verified};
use metsuke::fetch::select::{Days, Filters, Selection};
use metsuke::fetch::verification::{
    default_max_object_bytes, Insist, Verification, DEFAULT_MAX_OBJECT_BYTES,
};
use metsuke::key::{Kind, KEY_PREFIX};
use metsuke::names::Names;

const PATH: &str = "/state/cursor.json";

/// A run's filters, owned so a test can point two reads at them.
struct Asked {
    days: Days,
    prefix: String,
    selection: Selection,
}

impl Asked {
    fn filters(&self) -> Filters<'_> {
        Filters {
            prefix: &self.prefix,
            selection: &self.selection,
            days: &self.days,
        }
    }
}

fn no_days() -> Days {
    Days {
        from: None,
        until: None,
    }
}

fn no_selection() -> Selection {
    Selection {
        pool: None,
        agent: None,
        kind: None,
    }
}

fn metrics_only() -> Selection {
    Selection {
        pool: None,
        agent: None,
        kind: Some(Kind::Metrics),
    }
}

fn asked(prefix: &str, selection: Selection) -> Asked {
    Asked {
        prefix: prefix.to_string(),
        days: no_days(),
        selection,
    }
}

fn everything() -> Asked {
    asked(KEY_PREFIX, no_selection())
}

fn bar(insist: Insist) -> Verification {
    Verification {
        max_object_bytes: default_max_object_bytes(),
        insist,
    }
}

fn absent(asked: &Asked, insist: Insist) -> Cursor {
    Cursor::read(PATH, StateFile::Absent, &asked.filters(), &bar(insist))
        .expect("an absent file reads")
}

#[test]
fn a_state_file_that_does_not_exist_yet_is_the_archives_start() {
    let cursor = absent(&everything(), Insist::Nothing);

    assert_eq!(cursor.after, "");
    assert_eq!(cursor.prefix, KEY_PREFIX);
    assert_eq!(cursor.selection, no_selection());
    assert_eq!(cursor.insist, Insist::Nothing);
    assert_eq!(cursor.max_object_bytes.get(), DEFAULT_MAX_OBJECT_BYTES);
    assert_eq!(cursor.unverified.len(), 0);
}

/// A cursor at the lowest bar matches a run at the lowest bar, and a run that asks for more is
/// another run.
#[test]
fn a_state_file_without_a_bar_reads_as_the_lowest() {
    let held = || Cursor {
        prefix: "v1/".to_string(),
        selection: no_selection(),
        insist: Insist::Nothing,
        max_object_bytes: default_max_object_bytes(),
        from: None,
        after: "v1/x".to_string(),
        unverified: Names::new(),
    };

    let cursor = Cursor::read(
        PATH,
        StateFile::Held { cursor: held() },
        &everything().filters(),
        &bar(Insist::Nothing),
    )
    .expect("the lowest bar matches");
    assert_eq!(cursor.insist, Insist::Nothing);
    assert_eq!(cursor.after, "v1/x");

    let error = Cursor::read(
        PATH,
        StateFile::Held { cursor: held() },
        &everything().filters(),
        &bar(Insist::Attested),
    )
    .expect_err("a higher bar is another run");
    assert!(
        matches!(&error, CursorError::OtherFilters { asked, .. }
            if asked.ends_with("--require-attested")),
        "got: {}",
        error.message()
    );
}

#[test]
fn an_advanced_cursor_is_what_the_next_run_reads() {
    let asked = everything();
    let mut cursor = absent(&asked, Insist::Nothing);
    cursor.advance("v1/2026-08-27/object.jsonl.zst");
    let mut same = absent(&asked, Insist::Nothing);
    same.advance("v1/2026-08-27/object.jsonl.zst");

    assert_eq!(
        Cursor::read(
            PATH,
            StateFile::Held { cursor: same },
            &asked.filters(),
            &bar(Insist::Nothing)
        )
        .expect("it reads back"),
        cursor
    );
}

/// Every part of what a run was asked for is checked, because the run advanced the cursor past
/// every key it saw under all of them. One case per part, each differing in that part alone.
#[test]
fn a_cursor_from_another_run_is_refused() {
    const HELD: &str = "prefix \"v1/2026-08-01/\", kind metrics, --require-cold-signed";
    let held = asked("v1/2026-08-01/", metrics_only());
    // Each case names what the refusal has to say it was asked for, because that half is the
    // reason the variant carries two strings.
    for (asking, insist, wanted) in [
        (
            everything(),
            Insist::ColdSigned,
            "prefix \"v1/\", every pool, agent and kind, --require-cold-signed",
        ),
        (
            asked("v1/2026-08-01/", no_selection()),
            Insist::ColdSigned,
            "prefix \"v1/2026-08-01/\", every pool, agent and kind, --require-cold-signed",
        ),
        (
            asked(KEY_PREFIX, metrics_only()),
            Insist::ColdSigned,
            "prefix \"v1/\", kind metrics, --require-cold-signed",
        ),
        // The filters agree and the bar does not. The run that wrote this cursor refused what it
        // would not write and advanced past it anyway, so resuming under a lower bar starts after
        // objects it now wants.
        (
            asked("v1/2026-08-01/", metrics_only()),
            Insist::Attested,
            "prefix \"v1/2026-08-01/\", kind metrics, --require-attested",
        ),
    ] {
        let mut cursor = absent(&held, Insist::ColdSigned);
        cursor.advance("v1/2026-08-01/object.jsonl.zst");

        let error = Cursor::read(
            PATH,
            StateFile::Held { cursor },
            &asking.filters(),
            &bar(insist),
        )
        .expect_err("another run is another cursor");

        assert!(
            matches!(&error, CursorError::OtherFilters { held, asked, .. }
                if held == HELD && asked == wanted),
            "got: {}",
            error.message()
        );
        // The two sit on their own lines at one indent, so the reader finds the part that differs
        // rather than diffing two long strings.
        let text = error.message();
        assert!(
            text.contains(&format!("\n  holds: {HELD}\n"))
                && text.contains(&format!("\n  asked: {wanted}\n")),
            "got: {text}"
        );
    }
}

/// The asymmetry between the two bounds. A first day relocates where the listing starts, so a
/// cursor taken with one and read without would resume past everything before it. A last day only
/// stops the walk, in the same direction the cursor moves, so nothing is ever passed over by it
/// and a run that drops it is the natural way to carry on.
#[test]
fn the_first_day_binds_a_cursor_and_the_last_day_does_not() {
    let bounded = Asked {
        prefix: KEY_PREFIX.to_string(),
        selection: no_selection(),
        days: Days {
            from: Some("v1/2026-09-01".to_string()),
            until: Some("v1/2026-09-04".to_string()),
        },
    };
    let taken = || {
        let mut cursor = absent(&bounded, Insist::Nothing);
        cursor.advance("v1/2026-09-02/object.jsonl.zst");
        cursor
    };

    // Dropping the last day carries on from where the bounded run stopped.
    let carried = Asked {
        days: Days {
            from: Some("v1/2026-09-01".to_string()),
            until: None,
        },
        ..everything()
    };
    let cursor = Cursor::read(
        PATH,
        StateFile::Held { cursor: taken() },
        &carried.filters(),
        &bar(Insist::Nothing),
    )
    .expect("the last day is not part of what a cursor is for");
    assert_eq!(cursor.after, "v1/2026-09-02/object.jsonl.zst");

    // Dropping the first day is another run, and would resume past August.
    let widened = Asked {
        days: no_days(),
        ..everything()
    };
    let error = Cursor::read(
        PATH,
        StateFile::Held { cursor: taken() },
        &widened.filters(),
        &bar(Insist::Nothing),
    )
    .expect_err("no first day is a wider window");
    assert!(
        matches!(&error, CursorError::OtherFilters { held, .. }
            if held.contains("from \"v1/2026-09-01\"")),
        "got: {}",
        error.message()
    );
}

#[test]
fn a_state_file_that_is_not_a_cursor_is_refused() {
    let error = Cursor::read(
        PATH,
        StateFile::Unreadable {
            reason: "expected value at line 1 column 1".to_string(),
        },
        &everything().filters(),
        &bar(Insist::Nothing),
    )
    .expect_err("a bare key is not the state file");

    assert!(
        matches!(&error, CursorError::Unreadable { .. }),
        "got: {}",
        error.message()
    );
}

#[test]
fn a_state_file_that_cannot_be_read_is_named() {
    let error = Cursor::read(
        PATH,
        StateFile::Failed {
            reason: "permission denied".to_string(),
        },
        &everything().filters(),
        &bar(Insist::Nothing),
    )
    .expect_err("nothing was read");
    assert_eq!(
        error.message(),
        "cannot read the state file /state/cursor.json: permission denied"
    );
}

/// A bound that is not the shipped one is part of what a cursor is for, and is said.
#[test]
fn another_size_bound_is_another_run() {
    let error = Cursor::read(
        PATH,
        StateFile::Held {
            cursor: absent(&everything(), Insist::Nothing),
        },
        &everything().filters(),
        &Verification {
            max_object_bytes: NonZeroU64::new(64).expect("above zero"),
            insist: Insist::Nothing,
        },
    )
    .expect_err("another bound is another run");
    assert!(
        matches!(&error, CursorError::OtherFilters { held, asked, .. }
            if asked == "prefix \"v1/\", every pool, agent and kind, max-object-bytes 64, nothing required"
            && held == "prefix \"v1/\", every pool, agent and kind, nothing required"),
        "got: {}",
        error.message()
    );
}

/// What did not verify stays named across runs, until an operator says it has been dealt with.
#[test]
fn unverified_keys_stay_until_forgotten() {
    let mut cursor = absent(&everything(), Insist::Nothing);
    cursor.advance_unverified("v1/2026-08-27/b");
    cursor.advance("v1/2026-08-27/c");
    cursor.advance_unverified("v1/2026-08-27/b");
    let mut cursor = Cursor::read(
        PATH,
        StateFile::Held { cursor },
        &everything().filters(),
        &bar(Insist::Nothing),
    )
    .expect("its own run reads it");
    assert_eq!(cursor.after, "v1/2026-08-27/b");
    assert!(cursor.unverified.contains("v1/2026-08-27/b"));
    assert!(!cursor.unverified.contains("v1/2026-08-27/c"));
    assert_eq!(cursor.forget_unverified(), 1);
    assert_eq!(cursor.unverified.len(), 0);
}

/// A directory keeps the bar it was claimed under.
#[test]
fn a_directory_is_held_to_one_bar() {
    let Ok(Claim::Write { verified }) = claim("/srv", Record::Absent, &bar(Insist::Attested)) else {
        panic!("a directory without a record is claimed");
    };
    assert_eq!(verified, Verified::of(&bar(Insist::Attested)));
    assert_eq!(
        claim("/srv", Record::Held { verified }, &bar(Insist::Attested)).expect("its own bar"),
        Claim::Stands
    );
    let error = claim("/srv", Record::Held { verified }, &bar(Insist::Nothing))
        .expect_err("another bar");
    assert_eq!(
        error.message(),
        "/srv/.metsuke-verification.json records another bar\n  \
         holds: max-object-bytes 16777216, --require-attested\n  \
         asked: max-object-bytes 16777216, nothing required\n  \
         name a directory of its own for this one, or ask for what it holds"
    );
    let reason = || "bad".to_string();
    assert!(matches!(
        claim("/srv", Record::Failed { reason: reason() }, &bar(Insist::Nothing)),
        Err(ProvenanceError::Read { .. })
    ));
    assert!(matches!(
        claim("/srv", Record::Unreadable { reason: reason() }, &bar(Insist::Nothing)),
        Err(ProvenanceError::Unreadable { .. })
    ));
}

/// The first day is where a walk starts and the last is where it ends, that day and all.
#[test]
fn days_bound_a_walk_on_either_side() {
    let days = Days {
        from: Some("v1/2026-09-01".to_string()),
        until: Some("v1/2026-09-04".to_string()),
    };
    assert_eq!(days.start(""), "v1/2026-09-01");
    assert_eq!(days.start("v1/2026-09-02/a"), "v1/2026-09-02/a");
    assert!(!days.past("v1/2026-09-04/a") && days.past("v1/2026-09-05/a"));
    assert!(!no_days().past("v1/9999-12-31/a"));
}
