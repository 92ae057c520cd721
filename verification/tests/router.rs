use octothorpe::router::{PortFlag, PortInfo, Router};

fn port(name: &str, alias: &str, is_input: bool) -> PortInfo {
    PortInfo { name: String::from(name), aliases: vec![String::from(alias)], is_input, is_output: !is_input }
}

fn channel_ports() -> Vec<String> {
    (0..16).map(|num| format!("octothorpe:channel_{}", num)).collect()
}

#[test]
fn router_knows_the_controller_ports() {
    let router = Router::new();
    assert_eq!(router.port_designations.len(), 4);
    assert_eq!(router.port_designations[0].alias_pattern, "APC40");
    assert_eq!(router.port_designations[0].flag, PortFlag::IsOutput);
    assert_eq!(router.port_designations[3].target_port, "octothorpe:apc20_out");
}

#[test]
fn controller_ports_are_recognised_by_alias_and_flag() {
    let router = Router::new();
    let apc40_out = port("system:midi_capture_2", "alsa_pcm:Akai-APC40-MIDI-1/midi_capture_1", false);
    let apc20_in = port("system:midi_playback_3", "alsa_pcm:Akai-APC20-MIDI-1/midi_playback_1", true);
    let other = port("system:midi_capture_4", "alsa_pcm:Keystation/midi_capture_1", false);
    assert!(Router::matches_port_designation(&apc40_out, &router.port_designations[0]));
    assert!(!Router::matches_port_designation(&apc40_out, &router.port_designations[1]));
    assert_eq!(router.controller_target_port(&apc40_out), Some(String::from("octothorpe:apc40_in")));
    assert_eq!(router.controller_target_port(&apc20_in), Some(String::from("octothorpe:apc20_out")));
    assert_eq!(router.controller_target_port(&other), None);
}

#[test]
fn other_ports_connect_the_other_way_except_to_their_own_device() {
    let router = Router::new();
    let keys_out = port("system:midi_capture_4", "Keystation", false);
    let physical = vec![
        port("system:midi_playback_4", "Keystation", true),
        port("system:midi_playback_5", "Synth", true),
        port("system:midi_capture_5", "Synth", false),
        port("system:midi_playback_2", "Akai APC40", true),
    ];
    assert_eq!(router.default_target_ports(&keys_out, &physical), vec![String::from("system:midi_playback_5")]);
    // A port taking MIDI in also gets our sequencer channels
    let synth_in = port("system:midi_playback_5", "Synth", true);
    // Its own capture port has the same number, so only the channels are left
    assert_eq!(router.default_target_ports(&synth_in, &physical), channel_ports());
}

#[test]
fn registration_connects_controllers_and_others() {
    let router = Router::new();
    let physical = vec![port("system:midi_playback_5", "Synth", true)];
    let apc40_out = port("system:midi_capture_2", "Akai APC40", false);
    let (targets, reintroduce) = router.handle_port_registration(&apc40_out, &physical, true);
    assert_eq!((targets, reintroduce), (vec![String::from("octothorpe:apc40_in")], true));
    let keys_out = port("system:midi_capture_4", "Keystation", false);
    let (targets, reintroduce) = router.handle_port_registration(&keys_out, &physical, true);
    assert_eq!((targets, reintroduce), (vec![String::from("system:midi_playback_5")], false));
    let (targets, reintroduce) = router.handle_port_registration(&keys_out, &physical, false);
    assert!(targets.is_empty() && !reintroduce);
}

#[test]
fn a_port_is_the_apc40_by_its_aliases() {
    let mut port = PortInfo { name: String::from("system:midi_capture_3"), aliases: vec![], is_input: false, is_output: true };
    assert!(!Router::is_apc40_port(&port));
    port.aliases = vec![String::from("alsa_pcm:Akai-APC20-MIDI-1/midi_capture_1")];
    assert!(!Router::is_apc40_port(&port));
    port.aliases.push(String::from("Akai APC40 MIDI 1"));
    assert!(Router::is_apc40_port(&port));
}
