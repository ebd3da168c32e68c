# tiler

Static map images and raw tiles out of [PMTiles](https://protomaps.com/docs/pmtiles)
archives, over HTTP:

- `GET /staticmap` composes a PNG, SVG or JPEG map from vector tiles, with
  markers, routes, style overrides and labels;
- `GET /tiles/{name}/{z}/{x}/{y}.{ext}` and `GET /tiles/{name}.json` serve the
  tiles of the archives that `PMTILES_ALIASES` names, and describe them.

## Layout

`src/` is a library written in Verus. It decides what a request means and how
it is answered, and its contracts are proved:

| Module | What it does |
| --- | --- |
| `text`, `number`, `xml` | Text, integers in text, ranges of IEEE 754 bit patterns, escaping |
| `config` | The settings: aliases, origins, port, caching |
| `query`, `params`, `polyline`, `error` | Reading a query string and its parameters |
| `staticmap` | The request for a map, and its caching |
| `lookup` | Which texts of a request are numbers |
| `geo_util` | Which tiles cover a viewport, and at which zoom points fit |
| `tiles`, `mosaic` | Decoding tiles, and putting them in order |
| `style`, `render`, `markup`, `raster` | Styling, the SVG document, which documents can be drawn, and the image |
| `etag`, `reply` | Entity tags and responses |
| `tile_server` | The paths and answers of `/tiles` |

`app/` is the program around it: the HTTP server, reading archives, the
environment, telemetry, and floating-point arithmetic (parsing numbers, the
Web Mercator projection, stroking routes).

`tests/` runs the library with the crates it calls.

## Configuration

| Variable | Default | Meaning |
| --- | --- | --- |
| `PMTILES_URL` | | Source of `/staticmap` tiles, a path or an `http(s)` URL |
| `PMTILES_ALLOW_PARAM` | `false` | Whether a `/staticmap` request may name its own source with `pmtiles`; it could be any file or address that the server can reach |
| `PMTILES_ALIASES` | | Archives of `/tiles`: `alias=url` entries, separated by commas or newlines |
| `PORT` | `3000` | Port to listen on |
| `ALLOWED_ORIGINS` | any | Comma-separated CORS origins, or `*` |
| `TILES_CACHE_CONTROL` | `public, max-age=86400` | Caching of `/tiles` responses |
| `PUBLIC_HOSTNAME` | | Host in TileJSON URLs, in place of the `Host` header |
| `RUST_LOG` | `info` | Log filter |
| `OTEL_EXPORTER_OTLP_ENDPOINT` | | OpenTelemetry collector |
