# hrdf_parser

Parsing of Swiss public transport timetables in the HRDF format, the storage
and indexes built over them, and the search for routes through the network.
The library under `src/` is written in Verus: each public function states in
its contract what it returns, and Verus proves it.

## Layout

- `calendar` — dates (as day numbers), times of day and instants; the
  Gregorian arithmetic is chrono's.
- `text` — trimming, byte ranges and decimal integers of row text.
- `fxmap` — the hash maps and sets (rustc-hash) that the storage uses.
- `error` — the errors of the library.
- `models`, `journey` — the resources of a timetable: lines, stops, stop
  connections, journeys with their routes and metadata, and so on.
- `version` — the HRDF versions and the yearly timetables.
- `parsing`, `parser` — fixed-column rows: which kind a row is and the
  values of its columns; the inline values of a row.
- `fields` — values packed into one field: hexadecimal bit fields, word
  lists, stop names, holiday names, platform data.
- `line_parser` — the LINIE file.
- `attribute_parser`, `bit_field_parser`, `holiday_parser`,
  `timetable_metadata_parser`, `transport_type_parser`, `direction_parser`,
  `information_text_parser`, `stop_parser`, `stop_connection_parser`,
  `platform_parser`,
  `exchange_line_parser`, `exchange_time_parser` — the ATTRIBUT, BITFELD,
  FEIERTAG, ECKDATEN, ZUGART, RICHTUNG, INFOTEXT_*, BAHNHOF and UMSTEIGB,
  METABHF, GLEIS and GLEIS_LV95, UMSTEIGL, UMSTEIGV and UMSTEIGZ files:
  from their rows to the resources (and the ids that the designations
  name).
- `journey_parser` — the FPLAN file: the row layout, what each kind of row
  does to the journey it belongs to, and the journeys from the file's rows.
- `companies` — the names of transport companies.
- `storage` — the resource storages, the timetable as a whole, the indexes
  by day, stop and bit field, and filtering, modifying and adding resources.
- `routing`, `exploration`, `solutions` — routes, the next departures from
  a stop, the continuation of a route, walks to nearby stops, a round of
  exploration, and the best routes found so far.
- `search` — the search for routes from a stop: the routes to start from,
  the rounds of exploration that improve the solutions, the best route to
  one stop and the stops reachable within a time limit.
- `platforms` — the stops of journeys at platforms, by journey and stop.
- `isochrone` — how isochrones are drawn.
- `utils` — day and time helpers.

`app/` is the program around the library: it downloads and unpacks an HRDF
archive, reads the files that the library loads, builds the storage,
prints a summary, and plans a journey or counts the isochrones around a
point where asked. The platforms' coordinates
(GLEIS_LV95, GLEIS_WGS) are floating point and are not read; their SLOIDs
are. It also holds the floating-point geometry of isochrones (distances
on the Earth and walking times), around the library's route search.
