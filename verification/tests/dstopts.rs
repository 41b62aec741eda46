use muffin::dstopts::{is_dstopt, set_dstopt, DstOpts, Opt, StrOpt};

#[test]
fn padding_takes_up_what_it_was_asked_for() {
    for n in [2, 3, 8, 255] {
        let pad = StrOpt::pad(n);
        assert_eq!(pad.typ, 0x1);
        assert_eq!(pad.content, "\0".repeat(usize::from(n) - 2));
        assert_eq!(pad.wire_size(), usize::from(n));
    }
}

#[test]
fn text_options() {
    let text = StrOpt::text("muffin");
    assert_eq!(text.typ, 0x1e);
    assert_eq!(text.content, "muffin");
    assert_eq!(text.wire_size(), 8);
    // sizes count bytes, not characters
    assert_eq!(StrOpt::text("m\u{fc}ffin").wire_size(), 9);
}

#[test]
fn option_sizes() {
    let opts = DstOpts {
        next: 17,
        options: vec![Opt::Pad0(0), Opt::Str(StrOpt::text("abc"))],
    };
    assert_eq!(opts.options[0].wire_size(), 1);
    assert_eq!(opts.options[1].wire_size(), 5);
}

#[test]
fn header_lengths_count_units_of_eight_bytes() {
    for (options, units) in [(6u8, 0u8), (7, 0), (13, 0), (14, 1), (22, 2), (246, 30), (253, 30)] {
        let mut data = vec![17, options, 0x1e, 4];
        assert!(is_dstopt(&data));
        set_dstopt(&mut data);
        assert_eq!(data, vec![17, units, 0x1e, 4]);
    }
}

#[test]
fn lengths_that_no_header_has() {
    assert!(!is_dstopt(&vec![]));
    assert!(!is_dstopt(&vec![17]));
    assert!(!is_dstopt(&vec![17, 5]));
    assert!(!is_dstopt(&vec![17, 254]));
}

#[test]
fn every_gap_can_be_filled() {
    assert_eq!(Opt::Pad0(0).wire_size(), 1);
    for gap in 2..=255u8 {
        assert_eq!(Opt::Str(StrOpt::pad(gap)).wire_size(), usize::from(gap));
    }
    assert_eq!(Opt::Str(StrOpt::text("")).wire_size(), 2);
}
