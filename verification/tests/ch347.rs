use rflasher::ch347::device::{cs_control_packet, in_command, in_payload, out_packets};
use rflasher::ch347::protocol::{CH347F_USB_PRODUCT, CH347T_USB_PRODUCT, CH347_CMD_SPI_SET_CFG};
use rflasher::ch347::{
    parse_options, Ch347DeviceInfo, Ch347Error, Ch347Variant, ChipSelect, SpiConfig, SpiMode, SpiSpeed,
};

#[test]
fn test_spi_speed_from_khz() {
    assert_eq!(SpiSpeed::from_khz(60_000), SpiSpeed::Speed60M);
    assert_eq!(SpiSpeed::from_khz(30_000), SpiSpeed::Speed30M);
    assert_eq!(SpiSpeed::from_khz(15_000), SpiSpeed::Speed15M);
    assert_eq!(SpiSpeed::from_khz(100_000), SpiSpeed::Speed60M);
    assert_eq!(SpiSpeed::from_khz(20_000), SpiSpeed::Speed15M);
    assert_eq!(SpiSpeed::from_khz(10_000), SpiSpeed::Speed7_5M);
    assert_eq!(SpiSpeed::from_khz(100), SpiSpeed::Speed468_75K);
}

#[test]
fn test_spi_speed_to_khz() {
    assert_eq!(SpiSpeed::Speed60M.to_khz(), 60_000);
    assert_eq!(SpiSpeed::Speed30M.to_khz(), 30_000);
    assert_eq!(SpiSpeed::Speed15M.to_khz(), 15_000);
    assert_eq!(SpiSpeed::Speed7_5M.to_khz(), 7_500);
}

#[test]
fn test_spi_speed_slowest_settings() {
    assert_eq!(SpiSpeed::Speed937_5K.to_khz(), 937);
    assert_eq!(SpiSpeed::Speed468_75K.to_khz(), 468);
    assert_eq!(SpiSpeed::Speed468_75K.divisor(), 7);
    assert_eq!(SpiSpeed::from_khz(937), SpiSpeed::Speed937_5K);
    assert_eq!(SpiSpeed::from_khz(0), SpiSpeed::Speed468_75K);
}

#[test]
fn test_spi_mode() {
    assert_eq!(SpiMode::Mode0.cpol(), 0);
    assert_eq!(SpiMode::Mode0.cpha(), 0);
    assert_eq!(SpiMode::Mode1.cpol(), 0);
    assert_eq!(SpiMode::Mode1.cpha(), 1);
    assert_eq!(SpiMode::Mode2.cpol(), 1);
    assert_eq!(SpiMode::Mode2.cpha(), 0);
    assert_eq!(SpiMode::Mode3.cpol(), 1);
    assert_eq!(SpiMode::Mode3.cpha(), 1);
}

#[test]
fn test_config_buffer() {
    let config = SpiConfig::new();
    let buf = config.build_config_buffer();
    assert_eq!(buf[0], CH347_CMD_SPI_SET_CFG);
    assert_eq!(buf[1], 26);
    assert_eq!(buf[5], 4);
    assert_eq!(buf[6], 1);
}

#[test]
fn test_config_buffer_fields() {
    let mut config = SpiConfig::new().with_mode(SpiMode::Mode3).with_speed(SpiSpeed::Speed60M).with_cs(ChipSelect::CS1);
    config.lsb_first = true;
    let buf = config.build_config_buffer();
    assert_eq!(buf[9], 2);
    assert_eq!(buf[11], 1);
    assert_eq!(buf[14], 2);
    assert_eq!(buf[15], 0);
    assert_eq!(buf[17], 0x80);
    assert_eq!(buf[19], 7);
    let slow = SpiConfig::new().with_speed_khz(500).build_config_buffer();
    assert_eq!(slow[15], 7 << 3);
    assert_eq!(slow[17], 0);
}

#[test]
fn test_variant_product_id_roundtrip() {
    for v in [Ch347Variant::Ch347T, Ch347Variant::Ch347F] {
        assert_eq!(Ch347Variant::from_product_id(v.product_id()), Some(v));
    }
    assert_eq!(Ch347Variant::Ch347T.product_id(), CH347T_USB_PRODUCT);
    assert_eq!(Ch347Variant::Ch347F.product_id(), CH347F_USB_PRODUCT);
    assert_eq!(Ch347Variant::from_product_id(0x1234), None);
}

#[test]
fn test_parse_options() {
    let config = parse_options(&[("spispeed", "30000"), ("cs", "1")]).unwrap();
    assert_eq!(config.speed, SpiSpeed::Speed30M);
    assert_eq!(config.cs, ChipSelect::CS1);
    assert_eq!(config.mode, SpiMode::Mode0);

    let config = parse_options(&[("spimode", "3"), ("other", "x")]).unwrap();
    assert_eq!(config.mode, SpiMode::Mode3);
    assert_eq!(config.speed, SpiSpeed::Speed7_5M);

    let config = parse_options(&[]).unwrap();
    assert_eq!(config, SpiConfig::default());
}

#[test]
fn test_parse_options_errors() {
    assert_eq!(
        parse_options(&[("spispeed", "fast")]).unwrap_err(),
        Ch347Error::ConfigError("Invalid spispeed value: fast".to_string())
    );
    assert_eq!(
        parse_options(&[("spimode", "4")]).unwrap_err(),
        Ch347Error::ConfigError("Invalid spimode: 4 (must be 0-3)".to_string())
    );
    assert_eq!(
        parse_options(&[("spimode", "300")]).unwrap_err(),
        Ch347Error::ConfigError("Invalid spimode value: 300".to_string())
    );
    assert_eq!(
        parse_options(&[("cs", "2"), ("spimode", "x")]).unwrap_err(),
        Ch347Error::ConfigError("Invalid cs: 2 (must be 0 or 1)".to_string())
    );
    assert_eq!(
        parse_options(&[("cs", "-1")]).unwrap_err(),
        Ch347Error::ConfigError("Invalid cs value: -1".to_string())
    );
}

#[test]
fn test_device_info_text() {
    let info = Ch347DeviceInfo { bus: 1, address: 12, variant: Ch347Variant::Ch347T };
    assert_eq!(info.to_string(), "CH347T at bus 1 address 12");
    let info = Ch347DeviceInfo { bus: 3, address: 4, variant: Ch347Variant::Ch347F };
    assert_eq!(info.to_string(), "CH347F at bus 3 address 4");
}

#[test]
fn test_ch341a_device_info_text() {
    let info = rflasher::ch341a::Ch341aDeviceInfo { bus: 2, address: 7 };
    assert_eq!(info.to_string(), "CH341A at bus 2 address 7");
}

#[test]
fn test_cs_control_packet() {
    assert_eq!(cs_control_packet(ChipSelect::CS0, true), [0xC1, 10, 0, 0x80, 0, 0, 0, 0, 0x00, 0, 0, 0, 0]);
    assert_eq!(cs_control_packet(ChipSelect::CS1, false), [0xC1, 10, 0, 0x00, 0, 0, 0, 0, 0xC0, 0, 0, 0, 0]);
}

#[test]
fn test_out_packets() {
    let data: Vec<u8> = (0..1000u32).map(|i| i as u8).collect();
    let packets = out_packets(&data);
    assert_eq!(packets.len(), 2);
    assert_eq!(&packets[0][..3], &[0xC4, 0xFB, 0x01]);
    assert_eq!(&packets[0][3..], &data[..507]);
    assert_eq!(&packets[1][..3], &[0xC4, 0xED, 1]);
    assert_eq!(&packets[1][3..], &data[507..]);
    assert!(out_packets(&[]).is_empty());
}

#[test]
fn test_in_command_and_payload() {
    assert_eq!(in_command(0x0102_0304), [0xC3, 4, 0, 0x04, 0x03, 0x02, 0x01]);
    let packet = [0xC3, 5, 0, 1, 2, 3, 4, 5];
    assert_eq!(in_payload(&packet, 8, 100), Ok(5));
    assert_eq!(in_payload(&packet, 8, 2), Ok(2));
    assert_eq!(in_payload(&packet, 2, 2), Err(Ch347Error::InvalidResponse("Response too short".to_string())));
    assert_eq!(
        in_payload(&packet, 6, 2),
        Err(Ch347Error::InvalidResponse("Incomplete response: got 6 bytes, expected 8".to_string()))
    );
}

#[test]
fn test_speed_khz_round_trip() {
    for s in [
        SpiSpeed::Speed60M,
        SpiSpeed::Speed30M,
        SpiSpeed::Speed15M,
        SpiSpeed::Speed7_5M,
        SpiSpeed::Speed3_75M,
        SpiSpeed::Speed1_875M,
        SpiSpeed::Speed937_5K,
        SpiSpeed::Speed468_75K,
    ] {
        assert_eq!(SpiSpeed::from_khz(s.to_khz()), s);
    }
}
