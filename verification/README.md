# illumos_usb

The illumos `ugen` backend of a USB access library, as a Verus library.

`src/` holds the logic, each function with its contract, proved by Verus:

- `descriptors`: checking device and configuration descriptors, reading
  their fields, splitting a configuration into its interfaces (grouped by
  number, in increasing order) and splitting concatenated configurations.
- `control`: control requests and their setup packets.
- `device`: the `GET_DESCRIPTOR` fetch in two rounds, the
  `GET_CONFIGURATION` request, the path of a device's control endpoint, and
  what an open device read when it was opened.
- `enumeration`: the walk over the device tree that finds USB devices, with
  their bus, port chain, descriptors, strings, interfaces and link paths.
- `paths`: the map from link names to link paths.
- `transfer`: the classification of error numbers and the completion of
  transfers.
- `text`, `bytes`: decimal formatting and byte helpers.

`app/` reads the device tree with `devinfo`, opens endpoints and performs the
reads and writes with `rustix`, and hands the results to the library.
