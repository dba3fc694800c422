use ws_oled_driver::display::{Display, Protocol, BUS_CLOCK_SPEED, HEIGHT, WIDTH};
use ws_oled_driver::error::DisplayError;
use ws_oled_driver::gfx;
use ws_oled_driver::hardware::{Action, Level, Line, BL_PIN, CS_PIN, DC_PIN, RST_PIN};
use ws_oled_driver::transfer::{Event, Step, Transfer};

/// What a simulated panel saw.
#[derive(Debug, PartialEq, Eq, Clone)]
enum Seen {
    Line(Line, Level),
    Sleep(u64),
    Command(Vec<u8>),
    Data(Vec<u8>),
}

/// Carries `plan` out on a simulated panel whose bus fails at the write
/// numbered `fail_at`, counted from zero.
fn simulate(plan: Vec<Action>, fail_at: Option<usize>) -> (Vec<Seen>, Result<(), DisplayError>) {
    let mut transfer = Transfer::new(plan);
    let mut seen = Vec::new();
    let mut data = false;
    let mut writes = 0;
    let mut event = Event::Proceed;
    loop {
        match transfer.step(event) {
            Step::Perform(Action::Drive(line, level)) => {
                if *line == Line::DataCommand {
                    data = *level == Level::High;
                }
                seen.push(Seen::Line(*line, *level));
                event = Event::Proceed;
            }
            Step::Perform(Action::Sleep(millis)) => {
                seen.push(Seen::Sleep(*millis));
                event = Event::Proceed;
            }
            Step::Perform(Action::Write(bytes)) => {
                if fail_at == Some(writes) {
                    event = Event::BusFault;
                } else {
                    seen.push(if data { Seen::Data(bytes.clone()) } else { Seen::Command(bytes.clone()) });
                    event = Event::Proceed;
                }
                writes += 1;
            }
            Step::Done(result) => return (seen, result),
        }
    }
}

fn commands(seen: &[Seen]) -> Vec<u8> {
    let mut bytes = Vec::new();
    for item in seen {
        if let Seen::Command(sent) = item {
            bytes.extend_from_slice(sent);
        }
    }
    bytes
}

fn data(seen: &[Seen]) -> Vec<u8> {
    let mut bytes = Vec::new();
    for item in seen {
        if let Seen::Data(sent) = item {
            bytes.extend_from_slice(sent);
        }
    }
    bytes
}

const BRING_UP: [u8; 25] = [
    0xAE, 0x02, 0x10, 0x40, 0x81, 0xA0, 0xC0, 0xA6, 0xA8, 0x3F, 0xD3, 0x00, 0xD5, 0x80, 0xD9, 0xF1,
    0xDA, 0x12, 0xDB, 0x40, 0x20, 0x02, 0xA4, 0xA6, 0xAF,
];

#[test]
fn wiring() {
    assert_eq!(Line::Reset.pin(), 25);
    assert_eq!(Line::DataCommand.pin(), 24);
    assert_eq!(Line::ChipSelect.pin(), 8);
    assert_eq!(Line::Backlight.pin(), 18);
    assert_eq!((RST_PIN, DC_PIN, CS_PIN, BL_PIN), (25, 24, 8, 18));
    assert_eq!((WIDTH, HEIGHT), (128, 64));
    assert_eq!(BUS_CLOCK_SPEED, 8_000_000);
}

#[test]
fn startup_levels() {
    let display = Display::new();
    assert_eq!(
        display.startup(),
        vec![
            Action::Drive(Line::ChipSelect, Level::Low),
            Action::Drive(Line::Backlight, Level::High),
            Action::Drive(Line::DataCommand, Level::Low),
        ]
    );
}

#[test]
fn reset_pulse() {
    let display = Display::new();
    assert_eq!(
        display.reset(),
        vec![
            Action::Drive(Line::Reset, Level::High),
            Action::Sleep(100),
            Action::Drive(Line::Reset, Level::Low),
            Action::Sleep(100),
            Action::Drive(Line::Reset, Level::High),
            Action::Sleep(100),
        ]
    );
}

#[test]
fn command_goes_out_with_the_select_line_low() {
    let display = Display::new();
    assert_eq!(
        display.write_command(&[0xAE, 0x01]),
        Ok(vec![
            Action::Drive(Line::DataCommand, Level::Low),
            Action::Write(vec![0xAE, 0x01]),
        ])
    );
}

#[test]
fn data_goes_out_with_the_select_line_high() {
    let display = Display::new();
    assert_eq!(
        display.write_data(&[1, 2, 3]),
        Ok(vec![
            Action::Drive(Line::DataCommand, Level::High),
            Action::Write(vec![1, 2, 3]),
        ])
    );
    assert_eq!(
        display.write_data(&[]),
        Ok(vec![Action::Drive(Line::DataCommand, Level::High), Action::Write(vec![])])
    );
}

#[test]
fn raw_write_leaves_the_select_line_alone() {
    let display = Display::new();
    assert_eq!(display.spi_write_byte(&[9, 8]), vec![Action::Write(vec![9, 8])]);
}

#[test]
fn second_protocol_is_refused() {
    let mut display = Display::with_geometry(128, 64, Protocol::I2C);
    gfx::fill(&mut display, 0xFF);
    assert_eq!(display.i2c_write_byte(&[0]), Err(DisplayError::NotSupported));
    assert_eq!(display.write_command(&[0xAE]), Err(DisplayError::NotSupported));
    assert_eq!(display.write_data(&[0xAE]), Err(DisplayError::NotSupported));
    assert_eq!(display.initialize(), Err(DisplayError::NotSupported));
    assert_eq!(display.render(), Err(DisplayError::NotSupported));
    assert_eq!(display.show_image(&[0u8; 1024]), Err(DisplayError::NotSupported));
    assert_eq!(display.clear(), Err(DisplayError::NotSupported));
}

#[test]
fn raw_i2c_write_is_refused_on_any_display() {
    let display = Display::new();
    assert_eq!(display.i2c_write_byte(&[1, 2]), Err(DisplayError::NotSupported));
}

#[test]
fn initialize_on_a_simulated_bus() {
    let display = Display::new();
    let (seen, result) = simulate(display.initialize().unwrap(), None);
    assert_eq!(result, Ok(()));

    let mut expected = vec![
        Seen::Line(Line::Reset, Level::High),
        Seen::Sleep(100),
        Seen::Line(Line::Reset, Level::Low),
        Seen::Sleep(100),
        Seen::Line(Line::Reset, Level::High),
        Seen::Sleep(100),
    ];
    for byte in &BRING_UP[..24] {
        expected.push(Seen::Line(Line::DataCommand, Level::Low));
        expected.push(Seen::Command(vec![*byte]));
    }
    expected.push(Seen::Sleep(100));
    expected.push(Seen::Line(Line::DataCommand, Level::Low));
    expected.push(Seen::Command(vec![0xAF]));
    assert_eq!(seen, expected);

    assert_eq!(commands(&seen), BRING_UP.to_vec());
    assert_eq!(commands(&seen).len(), 25);
    let toggles: Vec<&Seen> =
        seen.iter().filter(|item| matches!(item, Seen::Line(Line::Reset, _))).collect();
    assert_eq!(toggles.len(), 3);
    let sleeps: Vec<&Seen> = seen.iter().filter(|item| matches!(item, Seen::Sleep(_))).collect();
    assert_eq!(sleeps, vec![&Seen::Sleep(100); 4]);
    assert!(data(&seen).is_empty());
}

#[test]
fn initialize_does_not_depend_on_the_frame() {
    let mut drawn = Display::new();
    gfx::fill(&mut drawn, 0xFF);
    assert_eq!(drawn.initialize(), Display::new().initialize());
    assert_eq!(drawn.initialize().unwrap().len(), 57);
}

#[test]
fn render_all_lit() {
    let mut display = Display::new();
    gfx::fill(&mut display, 0xFF);
    let (seen, result) = simulate(display.render().unwrap(), None);
    assert_eq!(result, Ok(()));

    let mut expected = Vec::new();
    for page in 0..8u8 {
        for byte in [0xB0 + page, 0x02, 0x10] {
            expected.push(Seen::Line(Line::DataCommand, Level::Low));
            expected.push(Seen::Command(vec![byte]));
        }
        expected.push(Seen::Sleep(10));
        expected.push(Seen::Line(Line::DataCommand, Level::High));
        for _ in 0..128 {
            expected.push(Seen::Data(vec![0xFF]));
        }
    }
    assert_eq!(seen, expected);
    assert_eq!(data(&seen), vec![0xFFu8; 8 * 128]);
    assert_eq!(
        commands(&seen),
        vec![
            0xB0, 0x02, 0x10, 0xB1, 0x02, 0x10, 0xB2, 0x02, 0x10, 0xB3, 0x02, 0x10, 0xB4, 0x02,
            0x10, 0xB5, 0x02, 0x10, 0xB6, 0x02, 0x10, 0xB7, 0x02, 0x10,
        ]
    );
}

#[test]
fn render_blank() {
    let display = Display::new();
    let (seen, result) = simulate(display.render().unwrap(), None);
    assert_eq!(result, Ok(()));
    assert_eq!(data(&seen), vec![0u8; 1024]);
    assert_eq!(display.render().unwrap().len(), 8 * (6 + 2 + 128));
}

#[test]
fn packing_puts_the_top_row_in_the_lowest_bit() {
    let mut display = Display::new();
    gfx::draw_point(&mut display, (3, 10), 0xFF);
    let mut expected = vec![0u8; 1024];
    expected[128 + 3] = 0x04;
    assert_eq!(display.packed(), expected);

    gfx::draw_point(&mut display, (3, 8), 0x01);
    gfx::draw_point(&mut display, (3, 15), 0x80);
    expected[128 + 3] = 0x85;
    assert_eq!(display.packed(), expected);

    gfx::draw_point(&mut display, (127, 63), 0xFF);
    gfx::draw_point(&mut display, (0, 0), 0xFF);
    expected[7 * 128 + 127] = 0x80;
    expected[0] = 0x01;
    assert_eq!(display.packed(), expected);
}

#[test]
fn packing_a_column() {
    let mut display = Display::new();
    gfx::draw_line(&mut display, (64, 0), (64, 63));
    let packed = display.packed();
    for page in 0..8 {
        for x in 0..128 {
            assert_eq!(packed[page * 128 + x], if x == 64 { 0xFF } else { 0x00 });
        }
    }
}

#[test]
fn packing_a_short_frame() {
    // Rows that the frame lacks count as dark.
    let mut display = Display::with_geometry(4, 10, Protocol::SPI);
    gfx::fill(&mut display, 0xFF);
    let packed = display.packed();
    assert_eq!(packed.len(), 32);
    assert_eq!(&packed[0..4], &[0xFF; 4]);
    assert_eq!(&packed[4..8], &[0x03; 4]);
    assert_eq!(&packed[8..], &[0x00; 24]);
}

#[test]
fn packing_a_tall_frame() {
    // Rows below the eighth page are not sent.
    let mut display = Display::with_geometry(2, 70, Protocol::SPI);
    gfx::draw_point(&mut display, (1, 66), 0xFF);
    assert_eq!(display.packed(), vec![0u8; 16]);
    gfx::draw_point(&mut display, (1, 63), 0xFF);
    let mut expected = vec![0u8; 16];
    expected[15] = 0x80;
    assert_eq!(display.packed(), expected);
}

#[test]
fn render_sends_the_packed_frame() {
    let mut display = Display::new();
    gfx::draw_line(&mut display, (0, 0), (127, 63));
    gfx::draw_line(&mut display, (0, 63), (127, 0));
    let (seen, result) = simulate(display.render().unwrap(), None);
    assert_eq!(result, Ok(()));
    assert_eq!(data(&seen), display.packed());
    assert_eq!(display.render(), display.show_image(&display.packed()));
}

#[test]
fn show_image_sends_the_buffer_page_by_page() {
    let display = Display::with_geometry(3, 64, Protocol::SPI);
    let buffer: Vec<u8> = (0..24).collect();
    let plan = display.show_image(&buffer).unwrap();
    let mut expected = Vec::new();
    for page in 0..8u8 {
        for byte in [0xB0 + page, 0x02, 0x10] {
            expected.push(Action::Drive(Line::DataCommand, Level::Low));
            expected.push(Action::Write(vec![byte]));
        }
        expected.push(Action::Sleep(10));
        expected.push(Action::Drive(Line::DataCommand, Level::High));
        for x in 0..3u8 {
            expected.push(Action::Write(vec![page * 3 + x]));
        }
    }
    assert_eq!(plan, expected);
}

#[test]
fn show_image_ignores_what_lies_beyond_eight_pages() {
    let display = Display::with_geometry(2, 64, Protocol::SPI);
    let exact: Vec<u8> = (0..16).collect();
    let longer: Vec<u8> = (0..40).collect();
    assert_eq!(display.show_image(&exact), display.show_image(&longer));
}

#[test]
fn show_image_without_columns() {
    let display = Display::with_geometry(0, 64, Protocol::SPI);
    let plan = display.show_image(&[]).unwrap();
    assert_eq!(plan.len(), 8 * 8);
    assert!(!plan.iter().any(|action| matches!(action, Action::Write(bytes) if bytes.is_empty())));
}

#[test]
fn panel_clear_lights_every_pixel() {
    let display = Display::new();
    let (seen, result) = simulate(display.clear().unwrap(), None);
    assert_eq!(result, Ok(()));
    assert_eq!(data(&seen), vec![0xFFu8; 1024]);
    assert_eq!(display.clear(), display.show_image(&[0xFF; 1024]));
    // The frame itself is left as it was.
    assert!(display.memory().iter().all(|cell| *cell == 0));
}

#[test]
fn bus_fault_aborts_initialize() {
    let display = Display::new();
    let (seen, result) = simulate(display.initialize().unwrap(), Some(3));
    assert_eq!(result, Err(DisplayError::BusIo));
    assert_eq!(commands(&seen), vec![0xAE, 0x02, 0x10]);
    // The select line was driven for the write that failed, and nothing after.
    assert_eq!(seen.last(), Some(&Seen::Line(Line::DataCommand, Level::Low)));
    assert_eq!(seen.len(), 6 + 3 * 2 + 1);
}

#[test]
fn bus_fault_aborts_render() {
    let mut display = Display::new();
    gfx::fill(&mut display, 0xFF);
    // Three commands and 128 bytes make the first page; the fault hits the
    // second data byte of the second page.
    let (seen, result) = simulate(display.render().unwrap(), Some(131 + 3 + 1));
    assert_eq!(result, Err(DisplayError::BusIo));
    assert_eq!(commands(&seen), vec![0xB0, 0x02, 0x10, 0xB1, 0x02, 0x10]);
    assert_eq!(data(&seen).len(), 129);
}

#[test]
fn bus_fault_on_the_first_write() {
    let display = Display::new();
    let (seen, result) = simulate(display.initialize().unwrap(), Some(0));
    assert_eq!(result, Err(DisplayError::BusIo));
    assert!(commands(&seen).is_empty());
}

#[test]
fn transfer_hands_out_the_plan_in_order() {
    let plan = || {
        vec![
            Action::Sleep(1),
            Action::Drive(Line::Backlight, Level::Low),
            Action::Write(vec![7]),
        ]
    };
    let mut transfer = Transfer::new(plan());
    let expected = plan();
    assert_eq!(transfer.step(Event::Proceed), Step::Perform(&expected[0]));
    assert_eq!(transfer.step(Event::Proceed), Step::Perform(&expected[1]));
    assert_eq!(transfer.step(Event::Proceed), Step::Perform(&expected[2]));
    assert_eq!(transfer.step(Event::Proceed), Step::Done(Ok(())));
    assert_eq!(transfer.step(Event::Proceed), Step::Done(Ok(())));
}

#[test]
fn transfer_of_nothing_is_done_at_once() {
    let mut transfer = Transfer::new(Vec::new());
    assert_eq!(transfer.step(Event::Proceed), Step::Done(Ok(())));
}

#[test]
fn transfer_stays_aborted() {
    let mut transfer = Transfer::new(vec![Action::Write(vec![1]), Action::Write(vec![2])]);
    assert_eq!(transfer.step(Event::Proceed), Step::Perform(&Action::Write(vec![1])));
    assert_eq!(transfer.step(Event::BusFault), Step::Done(Err(DisplayError::BusIo)));
    assert_eq!(transfer.step(Event::Proceed), Step::Done(Err(DisplayError::BusIo)));
    assert_eq!(transfer.step(Event::Proceed), Step::Done(Err(DisplayError::BusIo)));
}

#[test]
fn transfer_aborts_after_the_last_action_too() {
    let mut transfer = Transfer::new(vec![Action::Write(vec![1])]);
    assert_eq!(transfer.step(Event::Proceed), Step::Perform(&Action::Write(vec![1])));
    assert_eq!(transfer.step(Event::BusFault), Step::Done(Err(DisplayError::BusIo)));
}
