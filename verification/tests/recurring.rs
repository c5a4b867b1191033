use arca::db::{recurring_labels, upsert_recurring_label, RecurringLabel, StoredLabel, Transaction};
use arca::ids::{AccountId, TransactionId};
use arca::money::Cents;
use arca::recurring::{
    can_detect, detect, ignored_series, labeled_series, normalize_payee, suggest_label, try_detect,
    Cadence, SeriesLabel, Txn, DAY_SECS, MIN_OCCURRENCES,
};

fn txn(day: i64, cents: i64, desc: &str) -> Txn {
    Txn {
        posted_at: day * DAY_SECS,
        amount_cents: cents,
        description: desc.to_string(),
    }
}

fn charge(n: i64, day: i64, cents: i64, desc: &str, ext: String) -> Transaction {
    Transaction {
        id: Some(TransactionId(n)),
        account_id: AccountId(1),
        posted_at: day * DAY_SECS,
        amount_cents: Cents(cents),
        currency: "USD".to_string(),
        description: Some(desc.to_string()),
        category: None,
        tag: None,
        business_id: None,
        external_id: Some(ext),
        source: "manual".to_string(),
    }
}

fn monthly(desc: &str, cents: i64, ext: &str) -> Vec<Transaction> {
    [0_i64, 30, 61, 91]
        .iter()
        .enumerate()
        .map(|(i, day)| charge(i as i64, *day, cents, desc, format!("{ext}{i}")))
        .collect()
}

fn write(
    rows: &mut Vec<StoredLabel>,
    key: &str,
    label: Option<&str>,
    name: Option<&str>,
    active: bool,
    at: i64,
) {
    let w = StoredLabel {
        row: RecurringLabel {
            match_key: key.to_string(),
            label: label.map(str::to_string),
            display_name: name.map(str::to_string),
            business_id: None,
            confirmed_at: at,
        },
        active,
    };
    upsert_recurring_label(rows, &w);
}

#[test]
fn normalize_strips_digits_and_punctuation() {
    assert_eq!(normalize_payee("SQ *COFFEE 1234"), "sq coffee");
    assert_eq!(normalize_payee("SQ *COFFEE 5678"), "sq coffee");
    assert_eq!(normalize_payee("Netflix.com"), "netflix com");
    assert_eq!(normalize_payee("  AT&T  "), "at t");
    assert_eq!(normalize_payee("12345"), ""); // all digits -> empty -> skipped
}

#[test]
fn normalize_goes_beyond_ascii() {
    assert_eq!(normalize_payee("CAFÉ ÑANDÚ 12"), "café ñandú");
    assert_eq!(normalize_payee("Пекарня №7"), "пекарня");
}

#[test]
fn detects_monthly_subscription() {
    let txns = vec![
        txn(0, -1599, "Netflix"),
        txn(30, -1599, "Netflix"),
        txn(61, -1599, "Netflix"),
        txn(91, -1599, "Netflix"),
    ];
    let series = detect(&txns, MIN_OCCURRENCES);
    assert_eq!(series.len(), 1);
    let s = &series[0];
    assert_eq!(s.payee, "netflix");
    assert_eq!(s.cadence, Cadence::Monthly);
    assert_eq!(s.count, 4);
    assert_eq!(s.last_amount, Cents(-1599));
    assert_eq!(s.predicted_next, 91 * DAY_SECS + 30 * DAY_SECS);
}

#[test]
fn detects_variable_amount_utility_bill() {
    // Monthly, but the amount drifts: it is still detected, with its spread.
    let txns = vec![
        txn(0, -10000, "Grid Energy"),
        txn(31, -12500, "Grid Energy"),
        txn(59, -9500, "Grid Energy"),
        txn(90, -11000, "Grid Energy"),
    ];
    let series = detect(&txns, MIN_OCCURRENCES);
    assert_eq!(series.len(), 1);
    let s = &series[0];
    assert_eq!(s.cadence, Cadence::Monthly);
    assert_eq!(s.min_amount, Cents(-12500));
    assert_eq!(s.max_amount, Cents(-9500));
    assert_eq!(s.last_amount, Cents(-11000)); // chronological last
    assert_eq!(s.avg_amount, Cents((-10000 - 12500 - 9500 - 11000) / 4));
}

#[test]
fn detects_weekly_and_yearly() {
    let weekly: Vec<Txn> = (0..5).map(|i| txn(i * 7, -2000, "Gym")).collect();
    assert_eq!(detect(&weekly, MIN_OCCURRENCES)[0].cadence, Cadence::Weekly);

    let yearly = vec![
        txn(0, -9900, "Domain Renewal"),
        txn(365, -9900, "Domain Renewal"),
        txn(731, -9900, "Domain Renewal"),
    ];
    assert_eq!(detect(&yearly, MIN_OCCURRENCES)[0].cadence, Cadence::Yearly);
}

#[test]
fn ignores_irregular_payee() {
    // Gaps that fit no band are no series.
    let txns = vec![
        txn(0, -500, "Corner Store"),
        txn(3, -1200, "Corner Store"),
        txn(44, -800, "Corner Store"),
        txn(51, -300, "Corner Store"),
    ];
    assert!(detect(&txns, MIN_OCCURRENCES).is_empty());
}

#[test]
fn ignores_too_few_occurrences() {
    let txns = vec![txn(0, -1599, "Spotify"), txn(30, -1599, "Spotify")];
    assert!(detect(&txns, MIN_OCCURRENCES).is_empty());
}

#[test]
fn groups_payee_across_noisy_descriptors() {
    // Store and reference numbers vary per charge; without digits they are one payee.
    let txns = vec![
        txn(0, -1500, "WALMART #1234 SAN JUAN"),
        txn(30, -1500, "WALMART #5678 SAN JUAN"),
        txn(60, -1500, "WALMART #9012 SAN JUAN"),
    ];
    let series = detect(&txns, MIN_OCCURRENCES);
    assert_eq!(series.len(), 1);
    assert_eq!(series[0].payee, "walmart san juan");
    assert_eq!(series[0].count, 3);
}

#[test]
fn labeled_series_joins_persisted_label() {
    let rows = monthly("Netflix", -1599, "nf");
    let mut labels: Vec<StoredLabel> = Vec::new();
    // Unlabeled: detected, without a label.
    let series = labeled_series(&rows, &recurring_labels(&labels), MIN_OCCURRENCES);
    let nf = series.iter().find(|ls| ls.series.payee == "netflix").unwrap();
    assert_eq!(nf.label, None);

    // After confirming, the label joins.
    write(&mut labels, "netflix", Some("sub"), Some("Netflix"), true, 7);
    let series = labeled_series(&rows, &recurring_labels(&labels), MIN_OCCURRENCES);
    let nf = series.iter().find(|ls| ls.series.payee == "netflix").unwrap();
    assert_eq!(nf.label.as_deref(), Some("sub"));
    assert_eq!(nf.display_name.as_deref(), Some("Netflix"));
    assert_eq!(nf.confirmed_at, Some(7));
}

#[test]
fn rename_without_label_preserves_label() {
    let rows = monthly("Netflix", -1599, "nf");
    let mut labels: Vec<StoredLabel> = Vec::new();
    // A rename without a label: the label stays absent.
    write(&mut labels, "netflix", None, Some("Netflix HD"), true, 5);
    let nf = labeled_series(&rows, &recurring_labels(&labels), MIN_OCCURRENCES)
        .into_iter()
        .find(|ls| ls.series.payee == "netflix")
        .unwrap();
    assert_eq!(nf.label, None);
    assert_eq!(nf.display_name.as_deref(), Some("Netflix HD"));

    // A label afterwards keeps the name.
    write(&mut labels, "netflix", Some("sub"), None, true, 6);
    let nf = labeled_series(&rows, &recurring_labels(&labels), MIN_OCCURRENCES)
        .into_iter()
        .find(|ls| ls.series.payee == "netflix")
        .unwrap();
    assert_eq!(nf.label.as_deref(), Some("sub"));
    assert_eq!(nf.display_name.as_deref(), Some("Netflix HD"));

    // And a later rename keeps the label.
    write(&mut labels, "netflix", None, Some("Netflix 4K"), true, 7);
    let nf = labeled_series(&rows, &recurring_labels(&labels), MIN_OCCURRENCES)
        .into_iter()
        .find(|ls| ls.series.payee == "netflix")
        .unwrap();
    assert_eq!(nf.label.as_deref(), Some("sub"));
    assert_eq!(nf.display_name.as_deref(), Some("Netflix 4K"));
}

#[test]
fn suggest_label_recognizes_known_merchants() {
    assert_eq!(suggest_label("Netflix"), Some(SeriesLabel::Sub));
    assert_eq!(suggest_label("SPOTIFY P0H7L9Q1X2"), Some(SeriesLabel::Sub));
    assert_eq!(suggest_label("Amazon Prime"), Some(SeriesLabel::Sub));
    assert_eq!(suggest_label("Amazon Prime Video"), Some(SeriesLabel::Sub));
    assert_eq!(suggest_label("Peacock"), Some(SeriesLabel::Sub));
    assert_eq!(suggest_label("Volt Power"), Some(SeriesLabel::Bill));
    assert_eq!(suggest_label("Aqua"), Some(SeriesLabel::Bill));
    assert_eq!(suggest_label("Grid Energy"), Some(SeriesLabel::Bill));
    // Plain shopping is no subscription.
    assert_eq!(suggest_label("AMAZON MKTP US"), None);
    assert_eq!(suggest_label("Corner Gym"), None);
    assert_eq!(suggest_label("Acme Bakery"), None);
    assert_eq!(suggest_label(""), None);
    assert_eq!(suggest_label("000123"), None);
}

#[test]
fn series_label_parses_and_rejects() {
    for s in ["sub", "bill", "debt", "ignore"] {
        assert_eq!(SeriesLabel::parse(s).unwrap().as_str(), s);
    }
    assert!(SeriesLabel::parse("Subscription").is_none());
    assert!(SeriesLabel::parse("").is_none());
    assert!(SeriesLabel::parse("SUB").is_none());
}

#[test]
fn ignore_label_hides_series() {
    let rows = monthly("Netflix", -1599, "nf");
    let mut labels: Vec<StoredLabel> = Vec::new();
    // Detected before any label.
    assert!(labeled_series(&rows, &recurring_labels(&labels), MIN_OCCURRENCES)
        .iter()
        .any(|ls| ls.series.payee == "netflix"));
    // An active `ignore` takes it off the list.
    write(&mut labels, "netflix", Some("ignore"), None, true, 7);
    assert!(labeled_series(&rows, &recurring_labels(&labels), MIN_OCCURRENCES)
        .iter()
        .all(|ls| ls.series.payee != "netflix"));
    // Dismissing it brings the series back, without a label.
    write(&mut labels, "netflix", Some("ignore"), None, false, 8);
    let after = labeled_series(&rows, &recurring_labels(&labels), MIN_OCCURRENCES);
    let nf = after.iter().find(|ls| ls.series.payee == "netflix").unwrap();
    assert_eq!(nf.label, None);
}

#[test]
fn ignored_series_surfaces_only_hidden() {
    let mut rows = monthly("Netflix", -999, "nf");
    rows.extend(monthly("Hulu", -999, "hu"));
    let mut labels: Vec<StoredLabel> = Vec::new();
    write(&mut labels, "netflix", Some("ignore"), None, true, 7);
    let labels = recurring_labels(&labels);
    let visible = labeled_series(&rows, &labels, MIN_OCCURRENCES);
    assert!(visible.iter().any(|ls| ls.series.payee == "hulu"));
    assert!(visible.iter().all(|ls| ls.series.payee != "netflix"));
    let hidden = ignored_series(&rows, &labels, MIN_OCCURRENCES);
    assert_eq!(hidden.len(), 1);
    assert_eq!(hidden[0].series.payee, "netflix");
    assert_eq!(hidden[0].label.as_deref(), Some("ignore"));
}

#[test]
fn normalize_payee_is_idempotent_on_detected_key() {
    for raw in ["SQ *COFFEE 1234", "Netflix.com", "WALMART #99 SAN JUAN"] {
        let once = normalize_payee(raw);
        assert_eq!(normalize_payee(&once), once);
    }
}

#[test]
fn soonest_due_sorted_first() {
    let mut txns: Vec<Txn> = (0..4).map(|i| txn(i * 30, -100, "Monthly A")).collect();
    txns.extend((0..3).map(|i| txn(i * 365, -100, "Yearly B")));
    let series = detect(&txns, MIN_OCCURRENCES);
    assert_eq!(series.len(), 2);
    assert!(series[0].predicted_next < series[1].predicted_next);
    assert_eq!(series[0].payee, "monthly a");
}

#[test]
fn cadence_as_str_is_stable() {
    assert_eq!(Cadence::Weekly.as_str(), "weekly");
    assert_eq!(Cadence::Biweekly.as_str(), "biweekly");
    assert_eq!(Cadence::Monthly.as_str(), "monthly");
    assert_eq!(Cadence::Quarterly.as_str(), "quarterly");
    assert_eq!(Cadence::Yearly.as_str(), "yearly");
}

#[test]
fn classify_uses_the_median_gap_not_an_index_artifact() {
    // Gaps of 5, 5, 30, 30 days: the upper median is 30 days, a month.
    let rows: Vec<Transaction> = [0_i64, 5, 10, 40, 70]
        .iter()
        .enumerate()
        .map(|(i, day)| charge(i as i64, *day, -1599, "MedianCo", format!("m{i}")))
        .collect();
    let series = labeled_series(&rows, &Vec::new(), MIN_OCCURRENCES);
    let s = series
        .iter()
        .find(|ls| ls.series.payee == "medianco")
        .expect("MedianCo detected as a series");
    assert_eq!(s.series.cadence, Cadence::Monthly);
}

#[test]
fn zero_amount_transactions_are_not_charges() {
    let mut rows = monthly("ZeroCo", 0, "z");
    rows.extend(monthly("RealCo", -1599, "r"));
    let series = labeled_series(&rows, &Vec::new(), MIN_OCCURRENCES);
    assert!(series.iter().any(|ls| ls.series.payee == "realco"));
    assert!(!series.iter().any(|ls| ls.series.payee == "zeroco"));
}

#[test]
fn detection_is_refused_outside_the_integers() {
    let fine: Vec<Txn> = (0..3).map(|i| txn(i * 30, -100, "Rent")).collect();
    assert!(can_detect(&fine, MIN_OCCURRENCES));
    assert_eq!(try_detect(&fine, MIN_OCCURRENCES).unwrap().len(), 1);

    // Three charges whose sum leaves 64 bits.
    let huge: Vec<Txn> = (0..3).map(|i| txn(i * 30, i64::MIN, "Rent")).collect();
    assert!(!can_detect(&huge, MIN_OCCURRENCES));
    assert!(try_detect(&huge, MIN_OCCURRENCES).is_none());

    // A gap that leaves 64 bits.
    let far = vec![
        Txn { posted_at: i64::MIN, amount_cents: -1, description: "Rent".to_string() },
        Txn { posted_at: i64::MAX, amount_cents: -1, description: "Rent".to_string() },
    ];
    assert!(try_detect(&far, 2).is_none());
}

#[test]
fn two_charges_are_the_least() {
    let txns = vec![txn(0, -1599, "Spotify"), txn(30, -1599, "Spotify")];
    assert_eq!(detect(&txns, 0).len(), 1);
    assert!(detect(&txns[..1], 0).is_empty());
}

#[test]
fn each_series_is_listed_or_ignored() {
    let mut rows = monthly("Netflix", -999, "nf");
    rows.extend(monthly("Hulu", -999, "hu"));
    rows.extend(monthly("Gym", -999, "gy"));
    let mut stored: Vec<StoredLabel> = Vec::new();
    write(&mut stored, "netflix", Some("ignore"), None, true, 7);
    write(&mut stored, "gym", Some("bill"), None, true, 7);
    let labels = recurring_labels(&stored);
    let listed = labeled_series(&rows, &labels, MIN_OCCURRENCES).len();
    let ignored = ignored_series(&rows, &labels, MIN_OCCURRENCES).len();
    assert_eq!((listed, ignored), (2, 1));
}

#[test]
fn normalize_is_idempotent_where_letters_change_with_case() {
    // A dotted capital I becomes an i and a combining dot, which is no letter.
    for raw in ["İstanbul Kart", "ΣΟΦΙΑΣ", "STRAẞE 7", "ǅ"] {
        let once = normalize_payee(raw);
        assert_eq!(normalize_payee(&once), once);
    }
    assert_eq!(normalize_payee("İstanbul"), "istanbul");
}

#[test]
fn the_order_of_transactions_does_not_matter() {
    let mut txns: Vec<Txn> = (0..4).map(|i| txn(i * 30, -100 - i, "Rent")).collect();
    txns.extend((0..3).map(|i| txn(i * 7, -50, "Gym")));
    let straight = detect(&txns, MIN_OCCURRENCES);
    txns.reverse();
    assert_eq!(format!("{straight:?}"), format!("{:?}", detect(&txns, MIN_OCCURRENCES)));
    txns.swap(0, 3);
    assert_eq!(format!("{straight:?}"), format!("{:?}", detect(&txns, MIN_OCCURRENCES)));
    assert_eq!(straight.len(), 2);
}

#[test]
fn a_higher_floor_keeps_the_longer_series() {
    let mut txns: Vec<Txn> = (0..5).map(|i| txn(i * 30, -100, "Rent")).collect();
    txns.extend((0..3).map(|i| txn(i * 7, -50, "Gym")));
    let all = detect(&txns, 3);
    let long = detect(&txns, 4);
    assert_eq!(all.len(), 2);
    assert_eq!(long.len(), 1);
    let kept: Vec<String> =
        all.iter().filter(|s| s.count >= 4).map(|s| format!("{s:?}")).collect();
    assert_eq!(kept, long.iter().map(|s| format!("{s:?}")).collect::<Vec<String>>());
}

#[test]
fn listed_and_ignored_are_the_detected() {
    let mut rows = monthly("Netflix", -999, "nf");
    rows.extend(monthly("Hulu", -999, "hu"));
    let txns: Vec<Txn> =
        [0_i64, 30, 61, 91].iter().flat_map(|d| [txn(*d, -999, "Netflix"), txn(*d, -999, "Hulu")]).collect();
    let mut stored: Vec<StoredLabel> = Vec::new();
    write(&mut stored, "netflix", Some("ignore"), None, true, 7);
    let labels = recurring_labels(&stored);
    let mut seen: Vec<String> = labeled_series(&rows, &labels, MIN_OCCURRENCES)
        .iter()
        .chain(ignored_series(&rows, &labels, MIN_OCCURRENCES).iter())
        .map(|ls| ls.series.payee.clone())
        .collect();
    let mut found: Vec<String> =
        detect(&txns, MIN_OCCURRENCES).iter().map(|s| s.payee.clone()).collect();
    seen.sort();
    found.sort();
    assert_eq!(seen, found);
}

#[test]
fn digits_do_not_count() {
    for (a, b) in [("SQ *COFFEE 1234", "SQ *COFFEE 5"), ("7-ELEVEN", "-ELEVEN"), ("a1b2", "ab")] {
        assert_eq!(normalize_payee(a), normalize_payee(b));
    }
    assert_ne!(normalize_payee("a 1 b"), normalize_payee("ab"));
}
