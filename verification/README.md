# RustyTools

A network diagnostics toolkit: continuous ping, MTR-style traces, DNS lookups,
the ARP table with vendor identification, and a report on the network
configuration of the host.

The library under `src/` holds the logic, with contracts that Verus proves.
The program under `app/` draws the pages, opens the sockets, runs the system
tools and writes the logs.

| Module | What it is about |
| --- | --- |
| `text`, `order`, `csv`, `units` | texts, stable sorting, log lines, time spans |
| `ip`, `mac` | addresses as text and as numbers |
| `util`, `source` | system tools, file names, host resolution, source selection |
| `echo` | ICMP echo requests and the validation of replies |
| `ping`, `traceroute`, `dns` | the engines behind the pages of these names |
| `arp`, `vendors`, `subnets` | the neighbor table, vendor lookups, subnet sweeps |
| `netconfig` | interfaces, name servers, routes, the report |
| `stats`, `session`, `view` | live figures, the state of the pages, what they show |
| `commands` | the command-line tools |

Proof functions whose names begin with `law_` state what holds of several
functions together.
