# ping_template

A concurrent ICMP echo ("ping") client whose logic is verified with Verus.

The program takes one argument, a line `address,count,interval` such as
`1.1.1.1,3,1000`, sends `count` echo requests to the address on a timer of
`interval` milliseconds, and prints one line per request. The timer's first
tick comes at once, so the first two requests go out together and the
later ones `interval` milliseconds apart.

- `src/` is the verified library: reading the configuration line (`config`,
  `cli_args`, with the dotted-decimal and decimal numerals of `net` and
  `text`), the echo request packet and the reading of received packets
  (`ping_net`), the request records (`echo_handle`, `connection_handle`),
  the table of outstanding requests with the decisions taken on it as
  requests are sent, time out and are answered (`ping_app`), and the
  scheduling decisions (`utils`).
- `app/` is the program around it: the command line, the raw socket, the
  tokio tasks and timers, and logging.
- `tests/` exercises the library on concrete values.
