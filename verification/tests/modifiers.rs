use jr::{gerund_shape, power_counts, power_plan, PowerArg, PowerPlan, amend, bdot_mode, infixes, prefixes, quote, quote_ranks, suffixes, JError, QuoteLeft, QuoteRight, QuoteVerb};

#[test]
fn prefixes_and_suffixes() {
    assert_eq!(prefixes(3), vec![(0, 1), (0, 2), (0, 3)]);
    assert_eq!(suffixes(3), vec![(0, 3), (1, 3), (2, 3)]);
    assert!(prefixes(0).is_empty());
}

#[test]
fn infixes_overlap_or_not() {
    assert_eq!(infixes(2, 4), vec![(0, 2), (1, 3), (2, 4)]);
    assert_eq!(infixes(5, 4), vec![]);
    assert_eq!(infixes(-2, 5), vec![(0, 2), (2, 4), (4, 5)]);
    assert_eq!(infixes(-2, 4), vec![(0, 2), (2, 4)]);
    assert_eq!(infixes(-3, 0), vec![]);
}

#[test]
fn rank_conjunction_ranks() {
    assert_eq!(quote_ranks(0, &[2]), Ok((2, 2, 2)));
    assert_eq!(quote_ranks(1, &[1]), Ok((1, 1, 1)));
    assert_eq!(quote_ranks(1, &[0, 1]), Ok((1, 0, 1)));
    assert_eq!(quote_ranks(1, &[0, 1, 2]), Ok((0, 1, 2)));
    assert_eq!(quote_ranks(1, &[0, 1, 2, 3]), Err(JError::LengthError));
    assert_eq!(quote_ranks::<i32>(1, &[]), Err(JError::LengthError));
    assert_eq!(quote_ranks(2, &[1]), Err(JError::LengthError));
}

#[test]
fn amend_puts_items_in_place() {
    assert_eq!(amend(1, &[1, 3], &[9, 8], &[0, 1, 2, 3]), Ok(vec![0, 9, 2, 8]));
    // x is taken round again
    assert_eq!(amend(1, &[0, 1, 2], &[7], &[0, 1, 2, 3]), Ok(vec![7, 7, 7, 3]));
    // a later index wins
    assert_eq!(amend(1, &[2, 2], &[5, 6], &[0, 1, 2]), Ok(vec![0, 1, 6]));
    assert_eq!(amend(1, &[4], &[5], &[0, 1, 2]), Err(JError::IndexError));
    assert_eq!(amend(2, &[0], &[5], &[0, 1, 2]), Err(JError::NonceError));
    assert_eq!(amend(1, &[], &[5], &[0, 1, 2]), Err(JError::LengthError));
    assert_eq!(amend::<i32>(1, &[0], &[], &[0, 1, 2]), Err(JError::LengthError));
}

#[test]
fn bitwise_modes() {
    assert_eq!(bdot_mode(-16), Ok(-16));
    assert_eq!(bdot_mode(34), Ok(34));
    assert_eq!(bdot_mode(35), Err(JError::DomainError));
    assert_eq!(bdot_mode(-17), Err(JError::DomainError));
}

#[test]
fn chunks_cover_every_item_once() {
    let r = infixes(-3, 7);
    assert_eq!(r.first().unwrap().0, 0);
    assert_eq!(r.last().unwrap().1, 7);
    for w in r.windows(2) {
        assert_eq!(w[0].1, w[1].0);
    }
    assert!(r.iter().all(|&(a, b)| a < b && b - a <= 3));
}

#[test]
fn amend_leaves_other_items() {
    let out = amend(1, &[2], &[9], &[5, 6, 7, 8]).unwrap();
    assert_eq!(out[0], 5);
    assert_eq!(out[1], 6);
    assert_eq!(out[3], 8);
}

#[test]
fn how_powers_run() {
    let noun = |boxed, rank, tally, first_empty| PowerArg::Noun { boxed, rank, tally, first_empty };
    assert_eq!(power_plan(true, noun(true, 0, 1, true)), Ok(PowerPlan::Converge));
    assert_eq!(power_plan(true, noun(true, 0, 1, false)), Err(JError::NonceError));
    assert_eq!(power_plan(true, noun(true, 1, 0, false)), Err(JError::NonceError));
    assert_eq!(power_plan(true, noun(true, 1, 3, false)), Ok(PowerPlan::Gerund));
    assert_eq!(power_plan(true, noun(false, 1, 3, false)), Ok(PowerPlan::Powers));
    assert_eq!(power_plan(true, PowerArg::Verb), Ok(PowerPlan::Dynamic));
    assert_eq!(power_plan(false, PowerArg::Verb), Err(JError::DomainError));
    assert_eq!(gerund_shape(&[true, true]), Ok(false));
    assert_eq!(gerund_shape(&[true, true, true]), Ok(true));
    assert_eq!(gerund_shape(&[true, false]), Err(JError::DomainError));
    assert_eq!(gerund_shape(&[true]), Err(JError::DomainError));
    assert_eq!(power_counts(&[2, -1, 0]), vec![2, 0, 0]);
}

#[test]
fn rank_conjunction() {
    let inf = (None, None, None);
    let nums = |rank: usize, items: Vec<i64>, infinite_atom: bool| QuoteRight::Numbers { rank, items, infinite_atom };
    assert_eq!(Err(JError::DomainError), quote::<i64>(QuoteLeft::Verb, &QuoteRight::NotNoun));
    assert_eq!(Err(JError::DomainError), quote::<i64>(QuoteLeft::Verb, &QuoteRight::NotNumeric));
    assert_eq!(Err(JError::DomainError), quote::<i64>(QuoteLeft::Noun, &QuoteRight::NotNumeric));
    assert_eq!(Ok((QuoteVerb::Reranked(2, 2, 2), inf)), quote(QuoteLeft::Verb, &nums(0, vec![2], false)));
    assert_eq!(Ok((QuoteVerb::Reranked(1, 0, 1), inf)), quote(QuoteLeft::Verb, &nums(1, vec![0, 1], false)));
    assert_eq!(Ok((QuoteVerb::Reranked(0, 1, 2), inf)), quote(QuoteLeft::Verb, &nums(1, vec![0, 1, 2], false)));
    assert_eq!(Err(JError::LengthError), quote(QuoteLeft::Verb, &nums(1, vec![0, 1, 2, 3], false)));
    assert_eq!(Err(JError::LengthError), quote(QuoteLeft::Verb, &nums(2, vec![1], false)));
    assert_eq!(Err(JError::NonceError), quote(QuoteLeft::Noun, &nums(0, vec![3], false)));
    assert_eq!(Ok((QuoteVerb::Constant, inf)), quote(QuoteLeft::Noun, &nums(0, vec![i64::MAX], true)));
}
