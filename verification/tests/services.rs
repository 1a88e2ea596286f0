use xdp_firmware::firewall::{check_packet, XdpContext, XDP_ABORTED, XDP_DROP, XDP_PASS, XDP_REDIRECT, XDP_TX};
use xdp_firmware::link::{next_link_action, LinkAction, LinkEvent, RECONNECT_DELAY_MS};
use xdp_firmware::loader::load_image;
use xdp_firmware::station::combine_seed;
use xdp_firmware::udp::{plan_reply, HEADER_SIZE, MTU};

#[test]
fn verdicts_that_pass() {
    assert!(check_packet(XDP_PASS));
    assert!(check_packet(XDP_TX));
    assert!(check_packet(XDP_REDIRECT));
    assert!(!check_packet(XDP_ABORTED));
    assert!(!check_packet(XDP_DROP));
    assert!(!check_packet(5));
    assert!(!check_packet(-1));
}

#[test]
fn xdp_context_bounds() {
    let ctx = XdpContext::new(0x3fc8_0000, 64);
    assert_eq!(ctx.data(), 0x3fc8_0000);
    assert_eq!(ctx.data_end(), 0x3fc8_0040);
    assert_eq!(ctx.len(), 64);
    let empty = XdpContext::new(16, 0);
    assert_eq!(empty.len(), 0);
}

#[test]
fn small_datagrams_go_back_whole() {
    assert_eq!(plan_reply(0), vec![]);
    assert_eq!(plan_reply(1), vec![(0, 1)]);
    assert_eq!(plan_reply(31), vec![(0, 31)]);
    assert_eq!(plan_reply(32), vec![(0, 32)]);
    assert_eq!(plan_reply(MTU), vec![(0, 1500)]);
}

#[test]
fn large_datagrams_are_split_payload_first() {
    assert_eq!(plan_reply(MTU + 1), vec![(32, 1501), (0, 32)]);
    assert_eq!(plan_reply(1536), vec![(HEADER_SIZE, 1536), (0, HEADER_SIZE)]);
}

#[test]
fn split_datagrams_reassemble() {
    let datagram: Vec<u8> = (0..1536u32).map(|i| (i % 251) as u8).collect();
    let mut rebuilt = Vec::new();
    for (start, end) in plan_reply(datagram.len()).into_iter().rev() {
        assert!(start < end);
        rebuilt.extend_from_slice(&datagram[start..end]);
    }
    assert_eq!(rebuilt, datagram);
}

#[test]
fn link_actions() {
    assert_eq!(next_link_action(LinkEvent::Started), LinkAction::Connect);
    assert_eq!(next_link_action(LinkEvent::Connected), LinkAction::WaitForEvents);
    assert_eq!(next_link_action(LinkEvent::ConnectFailed), LinkAction::Delay(5000));
    assert_eq!(RECONNECT_DELAY_MS, 5000);
    assert_eq!(next_link_action(LinkEvent::DelayElapsed), LinkAction::Connect);
    assert_eq!(next_link_action(LinkEvent::StationDisconnected), LinkAction::Connect);
    assert_eq!(next_link_action(LinkEvent::DisconnectWaitFailed), LinkAction::WaitForEvents);
    assert_eq!(next_link_action(LinkEvent::AccessPointEvent), LinkAction::WaitForEvents);
}

#[test]
fn image_is_loaded_and_bss_cleared() {
    let mut area = [0xaau8; 16];
    load_image(&mut area, &[1, 2, 3], 4);
    assert_eq!(area, [1, 2, 3, 0, 0, 0, 0, 0xaa, 0xaa, 0xaa, 0xaa, 0xaa, 0xaa, 0xaa, 0xaa, 0xaa]);
    let mut area = [7u8; 4];
    load_image(&mut area, &[9, 9, 9, 9], 0);
    assert_eq!(area, [9, 9, 9, 9]);
}

#[test]
fn seed_halves() {
    assert_eq!(combine_seed(1, 2), 0x1_0000_0002);
    assert_eq!(combine_seed(u32::MAX, u32::MAX), u64::MAX);
    assert_eq!(combine_seed(0, 0xdead_beef), 0xdead_beef);
    assert_eq!(combine_seed(0xdead_beef, 0), 0xdead_beef_0000_0000);
}
