//! Drivers and logic of a keypad calculator: a 4x4 matrix keypad scanner, an SSD1306 OLED
//! driver on I2C, a MAX7219 LED matrix driver on SPI, and the calculator that ties the keypad
//! to the display. Each driver decides what goes on the wire; the pin and bus work itself is
//! done by the caller through the actions and transactions that the drivers hand out.

pub mod max7219;
pub mod ssd1306;
pub mod keypad;
pub mod calculator;
