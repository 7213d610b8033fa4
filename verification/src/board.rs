//! Seeed Studio XIAO ESP32-C6 board definition.
//!
//! The XIAO silkscreen `D`-labels do **not** map linearly to GPIO numbers:
//!
//! | Silkscreen | GPIO | Default function        |
//! |------------|------|-------------------------|
//! | D0 / A0    | 0    | ADC                     |
//! | D1 / A1    | 1    | ADC                     |
//! | D2 / A2    | 2    | ADC                     |
//! | D3         | 21   |                         |
//! | D4         | 22   | I2C SDA                 |
//! | D5         | 23   | I2C SCL                 |
//! | D6         | 16   | UART0 TX (console)      |
//! | D7         | 17   | UART0 RX (console)      |
//! | D8         | 19   | SPI SCK                 |
//! | D9         | 20   | SPI MISO                |
//! | D10        | 18   | SPI MOSI                |
//! | (LED)      | 15   | user/builtin LED        |
use vstd::prelude::*;

verus! {

/// User/builtin LED on the XIAO ESP32-C6.
pub const LED_GPIO: u8 = 15;

/// The user LED is active-low: drive GPIO15 LOW to light it.
pub const LED_ACTIVE_LOW: bool = true;

/// ESP RX pin: receives the sensor's TX (XIAO D2).
pub const SENSOR_UART_RX_GPIO: u8 = 2;

/// ESP TX pin: drives the sensor's RX (XIAO D3).
pub const SENSOR_UART_TX_GPIO: u8 = 21;

/// LD2410 default UART baud rate (8N1).
pub const SENSOR_BAUD: u32 = 256_000;

/// Optional digital presence output (LD2410 `OUT` pin), a fallback when the
/// UART protocol cannot be parsed.
pub const SENSOR_PRESENCE_GPIO: u8 = 1;

/// The electrical level (`true` = high) that shows the LED as lit (`on`) or
/// dark: the LED is active-low, so lighting it means driving the pin low.
pub fn led_level_high(on: bool) -> (high: bool)
    ensures
        high == (on != LED_ACTIVE_LOW),
{
    on != LED_ACTIVE_LOW
}

} // verus!
