# krx-toolkit

A desktop order tool for the Korea Exchange through the Kiwoom REST and
WebSocket APIs, with its core verified by Verus.

- `src/` is the verified library: KRX price ticks, the order form's input rules
  and price display, realtime subscription bookkeeping, the realtime session
  (login queue, ping echo, registration requests), access-token renewal
  decisions, master-list paging, ticker search and record counting, and the
  JSON request bodies and answer checks of the Kiwoom APIs. Each public function
  carries a contract; laws that span functions are public proof functions.
- `app/` is the program around it: the egui windows, the HTTP and WebSocket
  clients, and the worker tasks that carry out what the library decides.
- `tests/` runs the library on concrete values.

The library calls chrono for reading token expiries, std and chrono for the
clock, serde_json for reading and writing JSON text, and Rust's standard library
for lower-casing search text and for building a string from characters; these
calls are its only trusted items.
