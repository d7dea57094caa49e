<?xml version="1.0" encoding="UTF-8"?>
<interface>
  <requires lib="gtk" version="4.10"/>
  <object class="GtkButton" id="entry">
    <property name="has-frame">false</property>
    <property name="hexpand">true</property>
    <style><class name="profile-settings-section"/></style>
    <child>
      <object class="GtkBox">
        <property name="spacing">8</property>
        <child><object class="GtkLabel" id="provider">
          <property name="xalign">0</property>
          <property name="hexpand">true</property>
          <style><class name="profile-section-title"/></style>
        </object></child>
        <child><object class="GtkLabel" id="count"><style><class name="dim-label"/></style></object></child>
      </object>
    </child>
  </object>
</interface>
