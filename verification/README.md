# relay_server

A relay server: it pairs two connections that ask for the same relay, hands their bytes on to each
other at limited speeds, takes commands over the loopback interface and keeps a whitelist through a
small HTTP interface.

`src/` is the library, verified with Verus. It reads and decides; it does no input or output.

| module | what it holds |
| --- | --- |
| `text`, `number`, `table`, `encoding` | splitting, trimming and searching of text; decimal numbers; tables and sets of texts; bytes as text |
| `settings`, `usage`, `console` | the limits, the usage report, and the commands |
| `key`, `pairing`, `relay` | the key of the server, who is let in and who meets whom, and the account of a pair |
| `request`, `api` | the requests to the whitelist interface, and what is done about them |
| `startup` | what is read when the server starts |

`app/` is the server around it: sockets, clocks, files, tasks and floating point. The program that
uses it implements `Host`, which brings the wire protocol, the whitelist file and the signals.

`tests/` runs the library from outside.
