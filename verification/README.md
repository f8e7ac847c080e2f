# keypad_calc

A verified library for a small keypad calculator built from a 4x4 matrix keypad, an
SSD1306 128x32 OLED display on I2C and a MAX7219 8x8 LED matrix on SPI.

- `src/keypad.rs`: the keypad scanner, a step function from pin outcomes to pin actions.
- `src/ssd1306.rs`: the display driver, which queues the I2C transactions it makes.
- `src/max7219.rs`: bit reversal, frame-buffer helpers and the LED matrix driver, which hands
  out its register writes one at a time and stops at the first failed write.
- `src/calculator.rs`: the calculator registers, decimal text and number rendering.
- `app/`: the program that wires the drivers to the board's pins and buses.
