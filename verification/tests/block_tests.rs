use ferrite_blocks::fft::window_take;
use ferrite_blocks::fft::fft_shift_into;
use ferrite_blocks::block::{drain_events_port, PortType, ReconfigureScope, Work, MAX_PORTS};
use ferrite_blocks::block::ReconfigureScope::{Downstream, SelfBlock, SourceRestart};
use ferrite_blocks::fft::{valid_fft_size, FftWindow};
use ferrite_blocks::spectral::SpectralMethod;
use ferrite_blocks::version;

#[test]
fn port_type_element_sizes() {
    assert_eq!(PortType::IqF32.element_size(), 8);
    assert_eq!(PortType::FftF32.element_size(), 4);
    assert_eq!(PortType::FftU8.element_size(), 1);
}

#[test]
fn port_type_element_sizes_of_every_kind() {
    assert_eq!(PortType::IqS16.element_size(), 4);
    assert_eq!(PortType::RealF32.element_size(), 4);
    assert_eq!(PortType::RealI16.element_size(), 2);
    assert_eq!(PortType::Bits.element_size(), 1);
    assert_eq!(PortType::Frames.element_size(), 1);
    assert_eq!(PortType::Events.element_size(), 1);
}

#[test]
fn reconfigure_scope_wire_strings_round_trip() {
    for scope in [
        ReconfigureScope::SelfBlock,
        ReconfigureScope::Downstream,
        ReconfigureScope::SourceRestart,
    ] {
        let wire = scope.as_wire_str();
        assert_eq!(ReconfigureScope::from_wire_str(wire), Some(scope));
    }
    assert_eq!(ReconfigureScope::from_wire_str("nope"), None);
}

#[test]
fn reconfigure_scope_wire_tags_are_exact() {
    assert_eq!(ReconfigureScope::SelfBlock.as_wire_str(), "self");
    assert_eq!(ReconfigureScope::Downstream.as_wire_str(), "downstream");
    assert_eq!(ReconfigureScope::SourceRestart.as_wire_str(), "sourceRestart");
    assert_eq!(ReconfigureScope::from_wire_str("Self"), None);
    assert_eq!(ReconfigureScope::from_wire_str(""), None);
    assert_eq!(ReconfigureScope::from_wire_str("downstream "), None);
}

#[test]
fn reconfigure_scope_default_is_most_disruptive() {
    assert_eq!(ReconfigureScope::default(), ReconfigureScope::SourceRestart);
}

#[test]
fn reconfigure_scope_merge_picks_larger() {
    assert_eq!(SelfBlock.merge(Downstream), Downstream);
    assert_eq!(Downstream.merge(SelfBlock), Downstream);
    assert_eq!(Downstream.merge(SourceRestart), SourceRestart);
    assert_eq!(SourceRestart.merge(SelfBlock), SourceRestart);
    assert_eq!(SelfBlock.merge(SelfBlock), SelfBlock);
}

#[test]
fn reconfigure_scope_cost_is_ordered() {
    assert!(SelfBlock.cost() < Downstream.cost());
    assert!(Downstream.cost() < SourceRestart.cost());
}

#[test]
fn merge_is_commutative_associative_idempotent_on_all_scopes() {
    let all = [SelfBlock, Downstream, SourceRestart];
    for a in all {
        assert_eq!(a.merge(a), a);
        assert_eq!(SourceRestart.merge(a), SourceRestart);
        for b in all {
            assert_eq!(a.merge(b), b.merge(a));
            for c in all {
                assert_eq!(a.merge(b).merge(c), a.merge(b.merge(c)));
            }
        }
    }
}

#[test]
fn work_new_is_all_zero() {
    let w = Work::new();
    assert_eq!(w.consumed, [0; MAX_PORTS]);
    assert_eq!(w.produced, [0; MAX_PORTS]);
}

#[test]
fn drain_events_port_moves_what_fits() {
    let mut queue = b"{\"a\":1}\n{\"b\":2}\n".to_vec();
    let mut dst = [0u8; 8];
    let n = drain_events_port(&mut queue, &mut dst);
    assert_eq!(n, 8);
    assert_eq!(&dst, b"{\"a\":1}\n");
    assert_eq!(queue, b"{\"b\":2}\n".to_vec());
    let mut big = [0xAAu8; 12];
    let n = drain_events_port(&mut queue, &mut big);
    assert_eq!(n, 8);
    assert_eq!(&big[..8], b"{\"b\":2}\n");
    assert_eq!(&big[8..], &[0xAA; 4]);
    assert!(queue.is_empty());
    assert_eq!(drain_events_port(&mut queue, &mut big), 0);
}

#[test]
fn version_is_set() {
    assert!(!version().is_empty());
}

#[test]
fn version_is_the_package_version() {
    assert_eq!(version(), "0.1.0");
}

#[test]
fn fft_window_keys() {
    assert_eq!(FftWindow::from_key("none"), Some(FftWindow::Rectangular));
    assert_eq!(FftWindow::from_key("hann"), Some(FftWindow::Hann));
    assert_eq!(FftWindow::from_key("hamming"), Some(FftWindow::Hamming));
    assert_eq!(FftWindow::from_key("blackman"), Some(FftWindow::Blackman));
    assert_eq!(FftWindow::from_key("Hann"), None);
    assert_eq!(FftWindow::from_key(""), None);
}

#[test]
fn fft_sizes_are_powers_of_two_from_64() {
    assert!(valid_fft_size(64));
    assert!(valid_fft_size(4096));
    assert!(valid_fft_size(131072));
    assert!(!valid_fft_size(32));
    assert!(!valid_fft_size(0));
    assert!(!valid_fft_size(100));
    assert!(!valid_fft_size(4095));
}

#[test]
fn spectral_method_defaults_to_boll() {
    assert_eq!(SpectralMethod::default(), SpectralMethod::Boll);
    assert_ne!(SpectralMethod::Boll, SpectralMethod::MmseLsa);
}

#[test]
fn fft_shift_moves_dc_to_the_centre() {
    let src = [0u32, 1, 2, 3, 4, 5, 6, 7];
    let mut dst = [99u32; 10];
    fft_shift_into(&src, &mut dst, 8);
    assert_eq!(dst, [4, 5, 6, 7, 0, 1, 2, 3, 99, 99]);
    let mut odd = [0u32; 5];
    fft_shift_into(&src, &mut odd, 5);
    assert_eq!(odd, [2, 3, 4, 0, 1]);
}

#[test]
fn window_take_fills_up_to_size() {
    assert_eq!(window_take(64, 0, 10), 10);
    assert_eq!(window_take(64, 60, 10), 4);
    assert_eq!(window_take(64, 64, 10), 0);
}
